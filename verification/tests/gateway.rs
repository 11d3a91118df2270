use modem2sip::audio::discovery::AlsaCard;
use modem2sip::config::{Config, DtmfMethod, Rtp, Sip, Sms, Upstream};
use modem2sip::db::{Attachment, Direction, StoredMessage};
use modem2sip::gateway::call::{
    build_ack, cancel_outgoing_invite, in_dialog_of, media_started, open_media,
    respond_with_media, retry_invite_with_auth, send_dtmf_info, send_provisional, ActiveCall, Opening, Role,
};
use modem2sip::gateway::device::{
    looks_like_alsa, media_address, normalise_alsa, resolve_audio_devices, rtp_bind_ip,
};
use modem2sip::gateway::messaging::{
    add_recipient, deletes_sent, format_mms_summary, incoming_sms_id, notify_sip_message, on_sms_added,
    outgoing_sms_id, outgoing_sms_id_at, submission_code, text_record, MessageStep, SmsStep,
    Submitted,
};
use modem2sip::gateway::modem_side::{start_sip_call, Added, DtmfStep, Listener, ModemStep};
use modem2sip::gateway::number::{parse_dtmf_info, sanitize_number};
use modem2sip::gateway::sip_side::{
    hear, info_code, on_sip_request, reply, CancelStep, Handler, Heard, InfoStep, InviteStep,
    ReinviteStep, Unplaced,
};
use modem2sip::gateway::{Ending, Gateway, LastWord};
use modem2sip::mm::watcher::ModemEvent;
use modem2sip::mm::{CallInfo, ModemInfo, SmsInfo};
use modem2sip::mms::manager::SendRequest;
use modem2sip::net::{ip_string, parse_ip, parse_socket, SocketAddr};
use modem2sip::sip::engine::SipCore;
use modem2sip::sip::message::{Message, Method, Request, Response};
use modem2sip::sip::sdp::{Codec, Sdp};
use modem2sip::sip::transport::Transport;
use modem2sip::sip::uri::{NameAddr, Uri};

fn addr(s: &str) -> SocketAddr {
    parse_socket(s).unwrap()
}

#[test]
fn number_sanitisation() {
    assert_eq!(sanitize_number("+82 10-1234-5678"), "+821012345678");
    assert_eq!(sanitize_number("tel:0212345678"), "0212345678");
    assert_eq!(sanitize_number("*123#"), "*123#");
}

/// The MMS sender is free-form text decoded from a PDU whoever sent the message wrote, and it goes
/// into the From header of the MESSAGE the gateway then sends to its own SIP peer.
#[test]
fn a_sender_cannot_smuggle_headers_through_the_number() {
    assert_eq!(
        sanitize_number("0100\r\nContact: <sip:evil@h>\r\nSubject: pwned"),
        "0100"
    );
    assert_eq!(sanitize_number("someone@example.com"), "");
    assert!(sanitize_number("\r\n\r\n").is_empty());
}

#[test]
fn a_number_is_reduced_once_and_for_all() {
    for raw in ["+82 10-1234-5678", "  +1+2 ", "*#06#", "", "1+2"] {
        let once = sanitize_number(raw);
        assert_eq!(sanitize_number(&once), once);
    }
    assert_eq!(sanitize_number("  +1+2 "), "+12");
}

#[test]
fn dtmf_info_parsing() {
    assert_eq!(
        parse_dtmf_info("application/dtmf-relay", "Signal=5\r\nDuration=250\r\n").as_deref(),
        Some("5")
    );
    assert_eq!(parse_dtmf_info("application/dtmf", "7\n").as_deref(), Some("7"));
    assert_eq!(parse_dtmf_info("application/sdp", "v=0"), None);
}

#[test]
fn a_relay_without_a_signal_brings_nothing() {
    assert_eq!(parse_dtmf_info("Application/DTMF-Relay", "Duration=250").as_deref(), Some(""));
    assert_eq!(
        parse_dtmf_info("application/dtmf-relay", "Duration=1\n SIGNAL = # \n").as_deref(),
        Some("#")
    );
}

#[test]
fn alsa_device_normalisation() {
    assert_eq!(normalise_alsa("/dev/snd/pcmC1D0c"), "plughw:1,0");
    assert_eq!(normalise_alsa("hw:2,0"), "hw:2,0");
}

#[test]
fn sound_devices_are_chosen_in_order() {
    assert_eq!(normalise_alsa("/dev/snd/pcmC12"), "plughw:12,0");
    assert_eq!(normalise_alsa("/dev/snd/pcmC3D12p"), "plughw:3,12");
    assert_eq!(normalise_alsa("/dev/snd/controlC1"), "/dev/snd/controlC1");
    assert!(looks_like_alsa("default"));
    assert!(!looks_like_alsa("/dev/ttyUSB1"));

    let mut cfg = Config::default();
    let card = Some(AlsaCard {
        index: 1,
        id: "EP06E".to_string(),
        name: "EP06-E".to_string(),
        device_path: "/sys/devices/usb1".to_string(),
        has_playback: true,
        has_capture: true,
    });
    assert_eq!(
        resolve_audio_devices(&cfg.audio, &card, None),
        Ok(("plughw:EP06E,0".to_string(), "plughw:EP06E,0".to_string()))
    );
    assert!(resolve_audio_devices(&cfg.audio, &None, None).is_err());
    cfg.audio.use_mm_audio_port = true;
    assert_eq!(
        resolve_audio_devices(&cfg.audio, &card, Some("hw:7,0")),
        Ok(("hw:7,0".to_string(), "hw:7,0".to_string()))
    );
    assert_eq!(
        resolve_audio_devices(&cfg.audio, &card, Some("ttyUSB1")),
        Ok(("plughw:EP06E,0".to_string(), "plughw:EP06E,0".to_string()))
    );
    cfg.audio.device = Some("hw:2,0".to_string());
    cfg.audio.capture_device = Some("hw:3,0".to_string());
    assert_eq!(
        resolve_audio_devices(&cfg.audio, &card, Some("hw:7,0")),
        Ok(("hw:3,0".to_string(), "hw:2,0".to_string()))
    );
}

fn request(method: Method, headers: &[(&str, &str)]) -> Request {
    let mut req = Request::new(method, Uri::parse("sip:gw").unwrap());
    for (k, v) in headers {
        req.headers.push(k, v);
    }
    req
}

/// A call the gateway answered as the UAS: our tag is on the To header of everything the peer sends
/// back.
fn answered_call() -> ActiveCall {
    ActiveCall {
        role: Role::FromSip,
        mm_path: None,
        peer_number: "+8210".into(),
        call_id: "call-1".into(),
        local: NameAddr::parse("<sip:gw@h>;tag=ours").unwrap(),
        remote: NameAddr::parse("<sip:alice@h>;tag=theirs").unwrap(),
        remote_target: Uri::parse("sip:alice@h").unwrap(),
        remote_addr: addr("10.0.0.5:5060"),
        local_cseq: 1,
        invite: request(Method::Invite, &[("call-id", "call-1"), ("cseq", "1 INVITE")]),
        invite_src: None,
        media: false,
        local_rtp_port: 16384,
        codec: Codec::Pcmu,
        remote_sdp: None,
        media_dtmf_pt: None,
        answered: true,
        auth_retried: false,
        ringing_sent: true,
        early_media: false,
        dtmf_via_modem_failed: false,
        cdr_id: None,
    }
}

fn bye(to: &str, from: &str, call_id: &str) -> Request {
    request(Method::Bye, &[("call-id", call_id), ("to", to), ("from", from)])
}

/// Matching in-dialog requests on the Call-ID alone let anyone who could see one packet of the call
/// tear it down or push digits into it.
#[test]
fn in_dialog_requires_both_tags() {
    let call = answered_call();
    assert!(in_dialog_of(&call, &bye("<sip:gw@h>;tag=ours", "<sip:a@h>;tag=theirs", "call-1")));

    // Right Call-ID, guessed or absent tags.
    for wrong in [
        bye("<sip:gw@h>;tag=guess", "<sip:a@h>;tag=theirs", "call-1"),
        bye("<sip:gw@h>", "<sip:a@h>;tag=theirs", "call-1"),
        bye("<sip:gw@h>;tag=ours", "<sip:eve@h>;tag=other", "call-1"),
        bye("<sip:gw@h>;tag=ours", "<sip:a@h>", "call-1"),
        bye("<sip:gw@h>;tag=ours", "<sip:a@h>;tag=theirs", "another-call"),
    ] {
        assert!(!in_dialog_of(&call, &wrong), "accepted {:?}", wrong.headers);
    }
}

/// Before the peer has offered a tag there is nothing to compare, so only ours is checked -
/// otherwise a legitimate early BYE would be refused.
#[test]
fn in_dialog_tolerates_an_unknown_remote_tag() {
    let mut call = answered_call();
    call.remote = NameAddr::parse("<sip:alice@h>").unwrap();
    assert!(in_dialog_of(&call, &bye("<sip:gw@h>;tag=ours", "<sip:a@h>;tag=x", "call-1")));
    assert!(!in_dialog_of(&call, &bye("<sip:gw@h>;tag=no", "<sip:a@h>;tag=x", "call-1")));
}

/// Pinning the media to an interface is pointless if the peer is still told to send it wherever the
/// signalling arrived.
#[test]
fn the_sdp_follows_the_rtp_bind_address() {
    let sip = parse_ip("10.0.0.1").unwrap();
    let rtp = |bind: Option<&str>, public: Option<&str>| {
        let cfg = Rtp {
            bind: bind.map(str::to_string),
            public_ip: public.map(str::to_string),
            ..Default::default()
        };
        ip_string(media_address(&cfg, sip))
    };

    // Nothing configured: whatever SIP advertises.
    assert_eq!(rtp(None, None), "10.0.0.1");
    // A specific bind is where the peer has to send.
    assert_eq!(rtp(Some("192.168.9.5"), None), "192.168.9.5");
    // A wildcard says nothing about where to reach us.
    assert_eq!(rtp(Some("0.0.0.0"), None), "10.0.0.1");
    assert_eq!(rtp(Some("::"), None), "10.0.0.1");
    // An explicit public address wins over both.
    assert_eq!(rtp(Some("192.168.9.5"), Some("203.0.113.7")), "203.0.113.7");
    assert_eq!(rtp(None, Some("203.0.113.7")), "203.0.113.7");
    assert_eq!(rtp(Some("0.0.0.0"), Some("203.0.113.7")), "203.0.113.7");
}

#[test]
fn media_sockets_follow_sip_unless_pinned() {
    let t = Transport { bound: addr("0.0.0.0:5060"), public_ip: None };
    let route = parse_ip("10.0.0.9");
    let mut rtp = Rtp::default();
    assert_eq!(ip_string(rtp_bind_ip(&rtp, &t, route)), "10.0.0.9");
    rtp.bind = Some("192.168.9.5".to_string());
    assert_eq!(ip_string(rtp_bind_ip(&rtp, &t, route)), "192.168.9.5");
    let t = Transport { bound: addr("10.0.0.2:5060"), public_ip: None };
    assert_eq!(ip_string(rtp_bind_ip(&Rtp::default(), &t, route)), "10.0.0.2");
}

fn element() -> SipCore {
    let sip = Sip { domain: Some("gw.local".to_string()), ..Sip::default() };
    SipCore::new(sip, addr("10.0.0.2:5060"), true).unwrap()
}

const OFFER: &str = "v=0\r\nc=IN IP4 10.0.0.5\r\nm=audio 40000 RTP/AVP 0 101\r\n\
                     a=rtpmap:101 telephone-event/8000\r\n";

fn invite(user: &str, call_id: &str, cseq: &str, body: &str) -> Request {
    let mut req = Request::new(Method::Invite, Uri::parse(&format!("sip:{user}@gw")).unwrap());
    req.headers.push("via", "SIP/2.0/UDP 10.0.0.5:5060;branch=z9hG4bK1");
    req.headers.push("from", "<sip:alice@h>;tag=theirs");
    req.headers.push("to", "<sip:gw@h>");
    req.headers.push("call-id", call_id);
    req.headers.push("cseq", cseq);
    req.headers.push("contact", "<sip:alice@10.0.0.5:5070>");
    req.body = body.as_bytes().to_vec();
    req
}

fn refusal(step: InviteStep) -> Option<u16> {
    match step {
        InviteStep::Refuse(code) => Some(code),
        _ => None,
    }
}

fn placed() -> (Gateway, SipCore) {
    let mut gw = Gateway::new();
    let mut core = element();
    gw.on_modem_event(
        &ModemEvent::Up { info: ModemInfo::default(), alsa: None },
        true,
    );
    let req = invite("0212345678", "call-1", "1 INVITE", OFFER);
    let InviteStep::Place(wanted) = gw.on_sip_invite(&req) else { panic!("not placed") };
    assert_eq!(wanted.number, "0212345678");
    assert_eq!(wanted.codec, Codec::Pcmu);
    assert_eq!(wanted.target.to_string(), "sip:alice@10.0.0.5:5070");
    gw.place_call(
        &mut core,
        wanted,
        "/Call/1".to_string(),
        req,
        addr("10.0.0.5:5060"),
        16384,
        "ours",
        Some(7),
    );
    (gw, core)
}

#[test]
fn an_invite_is_placed_or_refused() {
    let mut gw = Gateway::new();
    let req = invite("0212345678", "call-1", "1 INVITE", OFFER);
    assert_eq!(refusal(gw.on_sip_invite(&req)), Some(503));
    gw.on_modem_event(&ModemEvent::Up { info: ModemInfo::default(), alsa: None }, true);
    assert_eq!(refusal(gw.on_sip_invite(&invite("alice", "c", "1 INVITE", OFFER))), Some(484));
    assert_eq!(refusal(gw.on_sip_invite(&invite("123", "c", "1 INVITE", ""))), Some(488));
    let g729 = "v=0\r\nc=IN IP4 10.0.0.5\r\nm=audio 40000 RTP/AVP 18\r\n";
    assert_eq!(refusal(gw.on_sip_invite(&invite("123", "c", "1 INVITE", g729))), Some(488));
    let held = "v=0\r\nc=IN IP4 0.0.0.0\r\nm=audio 40000 RTP/AVP 0\r\n";
    assert_eq!(refusal(gw.on_sip_invite(&invite("123", "c", "1 INVITE", held))), Some(488));
    let mut nobody = invite("123", "c", "1 INVITE", OFFER);
    nobody.headers.remove("from");
    assert_eq!(refusal(gw.on_sip_invite(&nobody)), Some(400));
    assert!(matches!(gw.on_sip_invite(&req), InviteStep::Place(_)));

    let (mut gw, _) = placed();
    assert_eq!(refusal(gw.on_sip_invite(&invite("1", "other", "1 INVITE", OFFER))), Some(486));
    assert!(matches!(gw.on_sip_invite(&req), InviteStep::Ringing));
    assert!(gw.upgrade_to_early_media());
    gw.early_media_sent();
    assert!(!gw.upgrade_to_early_media());
    assert!(matches!(gw.on_sip_invite(&req), InviteStep::Repeat));
    assert_eq!(gw.on_modem_answered(), Some(7));
    assert!(matches!(gw.on_sip_invite(&req), InviteStep::Reinvite));
}

#[test]
fn a_refusal_for_want_of_a_modem_says_when_to_retry() {
    let core = element();
    let req = invite("1", "c", "1 INVITE", "");
    let resp = reply(&core, &req, 503, "t");
    assert_eq!(resp.headers.get("retry-after"), Some("30"));
    assert_eq!(resp.headers.get("warning"), Some("399 modem2sip \"modem not available\""));
    let resp = reply(&core, &req, 486, "t");
    assert_eq!(resp.headers.get("retry-after"), None);
    assert_eq!(resp.headers.to().unwrap().tag(), Some("t"));
    assert_eq!(on_sip_request(Method::Invite), Handler::Invite);
    assert_eq!(on_sip_request(Method::Ack), Handler::Nobody);
    assert_eq!(on_sip_request(Method::Refer), Handler::Refuse(405));
}

#[test]
fn the_modem_drives_the_call() {
    let (mut gw, _) = placed();
    let state = |new: i32, cause: u32| ModemEvent::CallState {
        path: "/Call/1".to_string(),
        old: 0,
        new,
        cause,
    };
    assert_eq!(
        gw.on_modem_event(&state(2, 0), true),
        ModemStep::Ring { early_media: true }
    );
    assert_eq!(gw.on_modem_event(&state(4, 0), true), ModemStep::Answer);
    assert_eq!(
        gw.on_modem_event(&state(7, 5), true),
        ModemStep::End { why: Ending::MobileEnded, code: 486 }
    );
    assert_eq!(
        gw.on_modem_event(&state(7, 4), true),
        ModemStep::End { why: Ending::MobileEnded, code: 480 }
    );
    assert_eq!(
        gw.on_modem_event(&state(7, 6), true),
        ModemStep::End { why: Ending::MobileEnded, code: 500 }
    );
    let other = ModemEvent::CallState { path: "/Call/2".to_string(), old: 0, new: 7, cause: 0 };
    assert_eq!(gw.on_modem_event(&other, true), ModemStep::Nothing);
    assert_eq!(
        gw.on_modem_event(&ModemEvent::CallAdded("/Call/1".to_string()), true),
        ModemStep::Nothing
    );
    assert_eq!(
        gw.on_modem_event(&ModemEvent::CallAdded("/Call/2".to_string()), true),
        ModemStep::ReadCall
    );
    assert_eq!(
        gw.on_modem_event(&ModemEvent::CallDeleted("/Call/1".to_string()), true),
        ModemStep::End { why: Ending::ObjectDeleted, code: 200 }
    );
    gw.on_modem_answered();
    assert_eq!(
        gw.on_modem_event(&state(7, 4), true),
        ModemStep::End { why: Ending::MobileEnded, code: 200 }
    );
    let down = ModemEvent::Down { reason: "gone".to_string() };
    assert_eq!(
        gw.on_modem_event(&down, true),
        ModemStep::End { why: Ending::ModemGone, code: 503 }
    );
    assert!(!gw.modem);
    assert_eq!(Ending::ModemGone.disposition(), "modem disappeared");
}

fn call_info(direction: i32, state: i32) -> CallInfo {
    CallInfo {
        path: "/Call/9".to_string(),
        number: "+82 10-1111-2222".to_string(),
        direction,
        state,
        audio_port: None,
    }
}

#[test]
fn calls_of_the_network_are_offered_one_at_a_time() {
    let mut gw = Gateway::new();
    assert_eq!(gw.on_mm_call_added(&call_info(1, 3)), Added::Offer);
    assert_eq!(gw.on_mm_call_added(&call_info(1, 7)), Added::Delete);
    assert_eq!(gw.on_mm_call_added(&call_info(2, 4)), Added::HangUp);
    gw.begin(answered_call(), None);
    assert_eq!(gw.on_mm_call_added(&call_info(1, 3)), Added::HangUp);
}

fn offered() -> (Gateway, SipCore) {
    let mut gw = Gateway::new();
    gw.modem = true;
    let mut core = element();
    let mut cfg = Config::default();
    cfg.modem.country_code = Some("82".to_string());
    let target = Uri::parse("sip:phone1@10.0.0.5:5060;ob").unwrap();
    let call = start_sip_call(
        &mut core,
        &cfg,
        &call_info(1, 3),
        target,
        addr("10.0.0.5:5060"),
        None,
        16384,
        "ours",
        "abcdef",
        "b1",
        1_700_000_000,
    );
    gw.begin(call, Some(3));
    (gw, core)
}

fn field_names(text: &str) -> Vec<&str> {
    let head = text.split("\r\n\r\n").next().unwrap();
    head.split("\r\n").skip(1).map(|l| l.split(':').next().unwrap()).collect()
}

#[test]
fn a_challenged_invite_goes_out_again() {
    let (mut gw, mut core) = offered();
    let call = gw.call.as_mut().unwrap();
    let up = Some(Upstream {
        username: "u".to_string(),
        password: "p".to_string(),
        ..Upstream::default()
    });
    let challenged = response(
        407,
        &[("proxy-authenticate", "Digest realm=\"r\", nonce=\"n\", qop=\"auth\"")],
        "",
    );
    let (before, next) = (call.local_cseq, core.cseq);
    assert!(!retry_invite_with_auth(&mut core, call, &None, &challenged, "cc", "b2"));
    let busy = response(486, &[], "");
    assert!(!retry_invite_with_auth(&mut core, call, &up, &busy, "cc", "b2"));
    let strange = response(401, &[("www-authenticate", "Digest realm=\"r\", algorithm=SHA-256")], "");
    assert!(!retry_invite_with_auth(&mut core, call, &up, &strange, "cc", "b2"));
    assert_eq!((call.local_cseq, core.cseq), (before, next));

    assert!(retry_invite_with_auth(&mut core, call, &up, &challenged, "cc", "b2"));
    assert_eq!((call.local_cseq, core.cseq), (next, next + 1));
    let text = String::from_utf8(call.invite.encode()).unwrap();
    assert!(text.contains(&format!("CSeq: {next} INVITE\r\n")), "{text}");
    assert!(text.contains("branch=z9hG4bKb2"), "{text}");
    assert!(text.contains("Proxy-Authorization: Digest username=\"u\""), "{text}");
    let names = field_names(&text);
    assert_eq!(
        &names[names.len() - 4..],
        ["CSeq", "Proxy-Authorization", "Via", "Content-Length"]
    );
    // Once is enough.
    assert!(!retry_invite_with_auth(&mut core, call, &up, &challenged, "cc", "b3"));

    let ack = build_ack(&core, call, None, "b4");
    let text = String::from_utf8(ack.encode()).unwrap();
    assert!(text.contains(&format!("CSeq: {next} ACK\r\n")), "{text}");
    let names = field_names(&text);
    assert_eq!(&names[names.len() - 3..], ["User-Agent", "CSeq", "Content-Length"]);
}

#[test]
fn a_call_of_the_network_becomes_an_invite() {
    let (gw, _) = offered();
    let call = gw.call.as_ref().unwrap();
    assert_eq!(call.role, Role::ToSip);
    // The caller is shown as it is written at home.
    assert_eq!(call.peer_number, "01011112222");
    let text = String::from_utf8(call.invite.encode()).unwrap();
    assert!(text.starts_with("INVITE sip:phone1@10.0.0.5:5060;ob SIP/2.0\r\n"));
    assert!(text.contains("From: \"01011112222\" <sip:01011112222@gw.local>;tag=ours\r\n"));
    assert!(text.contains("To: <sip:phone1@10.0.0.5:5060>\r\n"));
    assert!(text.contains("Call-ID: abcdef@modem2sip\r\n"));
    assert!(text.contains("branch=z9hG4bKb1"));
    assert!(text.contains("m=audio 16384 RTP/AVP 0 8 101\r\n"));
    assert!(matches!(Message::parse(text.as_bytes()), Some(Message::Request(_))));
}

fn response(code: u16, headers: &[(&str, &str)], body: &str) -> Response {
    let mut resp = Request::new(Method::Invite, Uri::parse("sip:gw").unwrap()).reply(code, "x");
    for (k, v) in headers {
        resp.headers.push(k, v);
    }
    resp.body = body.as_bytes().to_vec();
    resp
}

#[test]
fn an_answered_offer_connects() {
    let (mut gw, core) = offered();
    assert_eq!(hear(&response(100, &[], "")), Heard::Trying);
    assert_eq!(hear(&response(180, &[], "")), Heard::Progress);
    assert_eq!(hear(&response(200, &[], "")), Heard::Answered);
    assert_eq!(hear(&response(486, &[], "")), Heard::Failed);
    assert!(gw.call_id_matches("abcdef@modem2sip"));
    assert!(!gw.call_id_matches("other"));
    let ok = response(
        200,
        &[("to", "<sip:phone1@h>;tag=theirs"), ("contact", "<sip:phone1@10.0.0.6:5080>")],
        OFFER,
    );
    gw.on_sip_answered(&ok, Some(addr("10.0.0.6:5080")));
    let call = gw.call.as_ref().unwrap();
    assert_eq!(call.remote.tag(), Some("theirs"));
    let ack = build_ack(&core, call, None, "b2");
    let text = String::from_utf8(ack.encode()).unwrap();
    assert!(text.starts_with("ACK sip:phone1@10.0.0.6:5080 SIP/2.0\r\n"));
    assert!(text.contains("CSeq: 1 ACK\r\n"));
    assert_eq!(gw.take_answer(&ok), Some(addr("10.0.0.5:40000")));
    assert!(gw.call.as_ref().unwrap().answered);
    let (mut gw, _) = offered();
    assert_eq!(gw.take_answer(&response(200, &[], "")), None);
    assert!(gw.call.as_ref().unwrap().answered);
}

#[test]
fn a_challenged_offer_is_sent_once_more() {
    let (mut gw, mut core) = offered();
    let mut cfg = Config::default();
    let challenge = response(
        401,
        &[
            ("to", "<sip:phone1@h>;tag=t"),
            ("www-authenticate", "Digest realm=\"pbx\", nonce=\"1\", algorithm=SHA-256"),
            ("www-authenticate", "Digest realm=\"pbx\", nonce=\"1\""),
        ],
        "",
    );
    // Without credentials it is a rejection.
    let r = gw.on_sip_failed(&mut core, &cfg, &challenge, "cn", "b3");
    assert!(!r.again);
    let ack = r.ack.unwrap();
    assert_eq!(ack.method, Method::Ack);
    assert_eq!(ack.headers.get("cseq"), Some("1 ACK"));
    assert_eq!(ack.headers.get("to"), Some("<sip:phone1@h>;tag=t"));
    assert_eq!(ack.headers.get("content-type"), None);

    cfg.sip.register = Some(Upstream {
        username: "gw".to_string(),
        password: "s3cret".to_string(),
        ..Upstream::default()
    });
    let r = gw.on_sip_failed(&mut core, &cfg, &challenge, "cn", "b3");
    assert!(r.again);
    let call = gw.call.as_ref().unwrap();
    assert!(call.auth_retried);
    assert_eq!(call.invite.headers.get("cseq"), Some("2 INVITE"));
    assert!(call.invite.headers.get("authorization").unwrap().contains("username=\"gw\""));
    assert_eq!(call.invite.headers.top_via().unwrap().branch(), Some("z9hG4bKb3"));
    // A second challenge is a refusal.
    assert!(!gw.on_sip_failed(&mut core, &cfg, &challenge, "cn", "b4").again);
}

#[test]
fn a_call_ends_the_way_it_stands() {
    // Never answered: the caller is refused.
    let (mut gw, mut core) = placed();
    let f = gw.teardown_call(&mut core, 200, None, "t", "b").unwrap();
    assert!(f.hang_up);
    match f.word {
        LastWord::Refuse(resp) => {
            assert_eq!(resp.code, 480);
            assert_eq!(resp.headers.get("to"), Some("<sip:gw@h>;tag=ours"));
        }
        other => panic!("{other:?}"),
    }
    assert!(gw.call.is_none());
    assert!(gw.teardown_call(&mut core, 200, None, "t", "b").is_none());

    // The modem vanished: the caller may try again.
    let (mut gw, mut core) = placed();
    gw.on_modem_event(&ModemEvent::Down { reason: String::new() }, true);
    let f = gw.teardown_call(&mut core, 503, None, "t", "b").unwrap();
    assert!(!f.hang_up);
    match f.word {
        LastWord::Refuse(resp) => {
            assert_eq!(resp.code, 503);
            assert_eq!(resp.headers.get("retry-after"), Some("30"));
        }
        other => panic!("{other:?}"),
    }

    // Answered: the dialog is ended.
    let (mut gw, mut core) = placed();
    gw.on_modem_answered();
    match gw.teardown_call(&mut core, 503, None, "t", "b").unwrap().word {
        LastWord::Bye(req) => {
            assert_eq!(req.method, Method::Bye);
            assert_eq!(req.uri.to_string(), "sip:alice@10.0.0.5:5070");
            assert_eq!(req.headers.from().unwrap().tag(), Some("ours"));
            assert_eq!(req.headers.to().unwrap().tag(), Some("theirs"));
        }
        other => panic!("{other:?}"),
    }

    // Offered and not answered: our INVITE is cancelled.
    let (mut gw, mut core) = offered();
    let invite = gw.call.as_ref().unwrap().invite.encode();
    match gw.teardown_call(&mut core, 200, None, "t", "b").unwrap().word {
        LastWord::Cancel(req) => {
            assert_eq!(req.method, Method::Cancel);
            assert_eq!(req.headers.get("cseq"), Some("1 CANCEL"));
            assert!(req.body.is_empty());
            let Some(Message::Request(sent)) = Message::parse(&invite) else { panic!() };
            assert_eq!(req.headers.get("via"), sent.headers.get("via"));
        }
        other => panic!("{other:?}"),
    }
    assert!(cancel_outgoing_invite(&answered_call()).is_none());
}

#[test]
fn a_renegotiation_follows_the_media() {
    let (mut gw, core) = placed();
    let cfg = Config::default();
    let again = invite("0212345678", "call-1", "2 INVITE", OFFER);
    let step = gw.on_sip_reinvite(&core, &cfg, &again, None, "t", 1);
    assert!(matches!(step, ReinviteStep::Refuse(491)));
    gw.on_modem_answered();
    // Outside the dialog: our tag is missing.
    let step = gw.on_sip_reinvite(&core, &cfg, &again, None, "t", 1);
    assert!(matches!(step, ReinviteStep::Refuse(481)));
    let mut inside = again.clone();
    inside.headers.set("to", "<sip:gw@h>;tag=ours");
    // The first one again.
    let mut first = inside.clone();
    first.headers.set("cseq", "1 INVITE");
    let step = gw.on_sip_reinvite(&core, &cfg, &first, None, "t", 1);
    assert!(matches!(step, ReinviteStep::Refuse(491)));
    let mut narrowed = inside.clone();
    narrowed.body = b"v=0\r\nc=IN IP4 10.0.0.5\r\nm=audio 40000 RTP/AVP 8\r\n".to_vec();
    let step = gw.on_sip_reinvite(&core, &cfg, &narrowed, None, "t", 1);
    assert!(matches!(step, ReinviteStep::Refuse(488)));

    media_started(gw.call.as_mut().unwrap());
    assert_eq!(open_media(gw.call.as_ref().unwrap()), Opening::Running);
    inside.body = b"v=0\r\nc=IN IP4 10.0.0.7\r\nm=audio 41000 RTP/AVP 0 96\r\n\
                    a=rtpmap:96 telephone-event/8000\r\n"
        .to_vec();
    match gw.on_sip_reinvite(&core, &cfg, &inside, None, "t", 1) {
        ReinviteStep::Accept { resp, moved } => {
            assert_eq!(resp.code, 200);
            assert_eq!(moved, Some(addr("10.0.0.7:41000")));
            // The digits moved to a payload type that nothing decodes: not promised.
            let answer = Sdp::parse(&resp.body_str()).unwrap();
            assert_eq!(answer.telephone_event, None);
            assert_eq!(answer.port, 16384);
        }
        other => panic!("{other:?}"),
    }
    assert_eq!(gw.call.as_ref().unwrap().remote_sdp.as_ref().unwrap().port, 41000);
}

#[test]
fn responses_to_the_invite_describe_the_media() {
    let (mut gw, core) = placed();
    let cfg = Config::default();
    let call = gw.call.as_mut().unwrap();
    assert_eq!(open_media(call), Opening::Open(addr("10.0.0.5:40000")));
    let ringing = send_provisional(&core, call, 180, "t");
    assert_eq!(ringing.code, 180);
    assert!(call.ringing_sent);
    assert_eq!(ringing.headers.get("to"), Some("<sip:gw@h>;tag=ours"));
    let early = respond_with_media(&core, &cfg, call, 183, None, "t", 5).unwrap();
    let answer = respond_with_media(&core, &cfg, call, 200, None, "t", 5).unwrap();
    assert_eq!(early.code, 183);
    assert_eq!(early.body, answer.body);
    assert_eq!(Sdp::parse(&answer.body_str()).unwrap().telephone_event, Some(101));
    assert!(respond_with_media(&core, &cfg, &answered_call(), 200, None, "t", 5).is_none());
}

#[test]
fn failures_have_their_codes() {
    assert_eq!(Unplaced::NoPort.code(), 500);
    assert_eq!(Unplaced::ModemGone.code(), 503);
    assert_eq!(Unplaced::DialRefused.code(), 503);
    assert_eq!((info_code(true), info_code(false)), (200, 500));
    assert_eq!(Ending::MediaFailed.code(), 500);
    assert_eq!(Ending::ModemGone.code(), 503);
    assert_eq!(Ending::PeerSilent.code(), 200);
}

#[test]
fn peers_end_calls_only_within_the_dialog() {
    let (gw, mut core) = placed();
    let mut cancel = invite("0212345678", "call-1", "1 CANCEL", "");
    cancel.method = Method::Cancel;
    let ends = CancelStep { answer: 200, invite: Some(487) };
    let late = CancelStep { answer: 200, invite: None };
    assert_eq!(gw.on_sip_cancel(&cancel), ends);
    cancel.headers.set("cseq", "2 CANCEL");
    assert_eq!(gw.on_sip_cancel(&cancel), late);
    cancel.headers.set("cseq", "1 CANCEL");
    let inside = bye("<sip:gw@h>;tag=ours", "<sip:a@h>;tag=theirs", "call-1");
    let outside = bye("<sip:gw@h>;tag=ours", "<sip:a@h>;tag=guess", "call-1");
    assert_eq!(gw.on_sip_bye(&inside), 200);
    assert_eq!(gw.on_sip_bye(&outside), 481);
    let mut gw = gw;
    gw.on_modem_answered();
    assert_eq!(gw.on_sip_cancel(&cancel), late);

    let mut info = bye("<sip:gw@h>;tag=ours", "<sip:a@h>;tag=theirs", "call-1");
    info.method = Method::Info;
    info.headers.set("content-type", "application/dtmf-relay");
    info.body = b"Signal=5\r\n".to_vec();
    assert!(matches!(gw.on_sip_info(&info), InfoStep::Deliver(d) if d == "5"));
    info.body = b"".to_vec();
    assert!(matches!(gw.on_sip_info(&info), InfoStep::Answer(200)));
    info.headers.set("content-type", "text/plain");
    assert!(matches!(gw.on_sip_info(&info), InfoStep::Answer(415)));
    let mut stray = bye("<sip:gw@h>;tag=x", "<sip:a@h>;tag=theirs", "call-1");
    stray.headers.set("content-type", "application/dtmf");
    stray.body = b"5".to_vec();
    assert!(matches!(gw.on_sip_info(&stray), InfoStep::Answer(481)));

    let req = send_dtmf_info(&mut core, gw.call.as_ref().unwrap(), "9", None, "b");
    assert_eq!(req.method, Method::Info);
    assert_eq!(req.body, b"Signal=9\r\nDuration=250\r\n");
    assert!(gw.finish_call().is_some());
    assert!(gw.finish_call().is_none());
}

#[test]
fn digits_fall_back_for_the_rest_of_the_call() {
    let (mut gw, _) = placed();
    assert_eq!(gw.deliver_dtmf(DtmfMethod::Auto, ""), DtmfStep::Done(true));
    assert_eq!(gw.deliver_dtmf(DtmfMethod::Off, "5"), DtmfStep::Done(true));
    assert_eq!(gw.deliver_dtmf(DtmfMethod::Inband, "5"), DtmfStep::Done(false));
    assert_eq!(gw.deliver_dtmf(DtmfMethod::Auto, "5"), DtmfStep::Modem);
    media_started(gw.call.as_mut().unwrap());
    assert_eq!(gw.on_dtmf_refused(DtmfMethod::Auto), DtmfStep::Inband);
    assert_eq!(gw.deliver_dtmf(DtmfMethod::Auto, "6"), DtmfStep::Inband);
    assert_eq!(gw.deliver_dtmf(DtmfMethod::Modem, "6"), DtmfStep::Modem);
    assert_eq!(gw.on_dtmf_refused(DtmfMethod::Modem), DtmfStep::Done(false));
    // The next call asks the modem again.
    let (gw, _) = placed();
    assert_eq!(gw.deliver_dtmf(DtmfMethod::Auto, "5"), DtmfStep::Modem);
}

#[test]
fn early_media_takes_two_loud_windows() {
    let mut l = Listener::new(0, 0);
    assert_eq!(l.window(120, 6), None);
    assert_eq!(l.window(120 + 6 * 3000, 12), None);
    assert_eq!(l.window(120 + 6 * 3000, 18), None);
    assert_eq!(l.window(120 + 12 * 3000, 24), None);
    // Nothing arrived: that is no quiet window.
    assert_eq!(l.window(120 + 12 * 3000, 24), None);
    assert_eq!(l.window(120 + 18 * 3000, 30), Some(3000));
}

#[test]
fn silence_ends_a_call_unless_it_was_announced() {
    let (mut gw, _) = placed();
    assert_eq!(gw.check_media(true, 0, 30), None);
    media_started(gw.call.as_mut().unwrap());
    assert_eq!(gw.check_media(true, 0, 30), Some(Ending::AudioDied));
    assert_eq!(gw.check_media(false, 30_000, 30), None);
    assert_eq!(gw.check_media(false, 30_001, 30), Some(Ending::PeerSilent));
    assert_eq!(gw.check_media(false, 1_000_000, 0), None);
    let held = Sdp::parse("v=0\r\nc=IN IP4 10.0.0.5\r\nm=audio 4000 RTP/AVP 0\r\na=inactive\r\n");
    gw.call.as_mut().unwrap().remote_sdp = held;
    assert_eq!(gw.check_media(false, 30_001, 30), None);
}

fn message(to: &str, kind: Option<&str>, body: &str) -> Request {
    let mut req = request(Method::Message, &[("to", to)]);
    if let Some(k) = kind {
        req.headers.set("content-type", k);
    }
    req.body = body.as_bytes().to_vec();
    req
}

fn message_refusal(step: MessageStep) -> Option<u16> {
    match step {
        MessageStep::Refuse(code) => Some(code),
        _ => None,
    }
}

#[test]
fn only_marked_messages_go_on_the_air() {
    let mut gw = Gateway::new();
    let marked = message("<sip:0101@gw>;messagetype=SMS", None, "hi");
    assert_eq!(message_refusal(gw.on_sip_message(&marked)), Some(503));
    gw.modem = true;
    let plain = message("<sip:0101@gw>", None, "hi");
    assert_eq!(message_refusal(gw.on_sip_message(&plain)), Some(415));
    let other = message("<sip:0101@gw>;messagetype=im", None, "hi");
    assert_eq!(message_refusal(gw.on_sip_message(&other)), Some(415));
    match gw.on_sip_message(&marked) {
        MessageStep::Sms { number, text } => assert_eq!((&*number, &*text), ("0101", "hi")),
        step => panic!("{step:?}"),
    }
    // Inside the URI it is still understood.
    let inside = message("<sip:0101@gw;messagetype=sms>", Some("text/plain; charset=utf-8"), "hi");
    assert!(matches!(gw.on_sip_message(&inside), MessageStep::Sms { .. }));
    let image = message("<sip:0101@gw>;messagetype=sms", Some("image/png"), "hi");
    assert_eq!(message_refusal(gw.on_sip_message(&image)), Some(415));
    let nobody = message("<sip:alice@gw>;messagetype=sms", None, "hi");
    assert_eq!(message_refusal(gw.on_sip_message(&nobody)), Some(484));
    let json = message("<sip:0101@gw>;messagetype=sms", Some("application/json"), "{}");
    assert!(matches!(gw.on_sip_message(&json), MessageStep::Mms(n) if n == "0101"));
    assert_eq!(submission_code(Submitted::Accepted), 202);
    assert_eq!(submission_code(Submitted::Failed), 500);
    assert_eq!(submission_code(Submitted::Unreadable), 400);
    let mut sr = SendRequest { to: vec![], subject: None, text: None, attachments: vec![] };
    add_recipient(&mut sr, "");
    assert!(sr.to.is_empty());
    add_recipient(&mut sr, "0101");
    add_recipient(&mut sr, "0202");
    assert_eq!(sr.to, vec!["0101".to_string()]);
}

fn sms(state: u32, pdu_type: u32) -> SmsInfo {
    SmsInfo {
        path: "/SMS/4".to_string(),
        state,
        pdu_type,
        number: "+821012345678".to_string(),
        text: "hello".to_string(),
        data: vec![],
        timestamp: Some(" 2024-01-01T00:00:00+09 ".to_string()),
        smsc: None,
        class: -1,
    }
}

#[test]
fn messages_are_read_when_they_are_complete() {
    assert_eq!(on_sms_added(&sms(3, 1), false, 0), SmsStep::Text);
    assert_eq!(on_sms_added(&sms(1, 0), true, 0), SmsStep::Text);
    assert_eq!(on_sms_added(&sms(3, 2), true, 0), SmsStep::Ignore);
    assert_eq!(on_sms_added(&sms(3, 0), false, 0), SmsStep::Ignore);
    assert_eq!(on_sms_added(&sms(5, 1), false, 0), SmsStep::Ignore);
    assert_eq!(on_sms_added(&sms(2, 1), false, 0), SmsStep::Again { attempt: 1 });
    assert_eq!(on_sms_added(&sms(2, 1), false, 9), SmsStep::Again { attempt: 10 });
    assert_eq!(on_sms_added(&sms(2, 1), false, 10), SmsStep::Lost);
    let mut push = sms(3, 1);
    push.text = String::new();
    push.data = vec![0x2A, 0x06, 0x01, 0xBE];
    assert_eq!(on_sms_added(&push, false, 0), SmsStep::Push);
}

#[test]
fn a_message_is_known_by_what_the_network_said() {
    let info = sms(3, 1);
    let id = incoming_sms_id("/SMS/4", &info, "01012345678");
    assert_eq!(
        id,
        "2024-01-01T00:00:00+09|01012345678|5d41402abc4b2a76b9719d911017c592"
    );
    assert_eq!(incoming_sms_id("/SMS/11", &info, "01012345678"), id);
    let mut unstamped = sms(3, 1);
    unstamped.timestamp = Some("  ".to_string());
    assert!(incoming_sms_id("/SMS/4", &unstamped, "1").starts_with("/SMS/4|1|"));
    assert_eq!(outgoing_sms_id_at("/SMS/4", "now"), "/SMS/4|now");
    let keeping = Config::default().sms;
    assert!(deletes_sent(&keeping));
    assert!(!deletes_sent(&Sms { delivery_report: true, ..keeping }));
    let id = outgoing_sms_id("/SMS/4");
    assert!(id.starts_with("/SMS/4|2"), "{id}");
    assert!(id.len() >= "/SMS/4|".len() + 25, "{id}");
    let mut cfg = Config::default();
    cfg.modem.country_code = Some("+82".to_string());
    let own = Some("821011112222".to_string());
    let r = text_record(&cfg, &info, &own);
    assert_eq!(r.kind, "sms");
    assert_eq!(r.direction, Direction::Incoming);
    assert_eq!(r.peer, "01012345678");
    assert_eq!(r.text.as_deref(), Some("hello"));
    assert_eq!(r.own_number, own);
    assert_eq!(r.raw, None);
}

#[test]
fn an_announcement_is_marked_and_safe() {
    let mut core = element();
    let target = Uri::parse("sip:phone1@192.168.1.10:5060").unwrap();
    let req = notify_sip_message(
        &mut core,
        target,
        "010\r\nX: 1",
        "text/plain",
        "안녕",
        None,
        "t",
        "r",
        "b",
    );
    let text = String::from_utf8(req.encode()).unwrap();
    assert!(text.starts_with("MESSAGE sip:phone1@192.168.1.10:5060 SIP/2.0\r\n"));
    assert!(text.contains("To: <sip:phone1@192.168.1.10:5060>;messagetype=sms\r\n"));
    assert!(text.contains("From: \"0101\" <sip:0101@gw.local>;tag=t\r\n"));
    assert!(text.contains("Content-Type: text/plain\r\n"));
    assert!(text.ends_with("\r\n\r\n안녕"));
    let target = Uri::parse("sip:phone1@192.168.1.10:5060").unwrap();
    let req = notify_sip_message(&mut core, target, "x", "text/plain", "", None, "t", "r", "b");
    assert_eq!(req.headers.from().unwrap().uri.user.as_deref(), Some("unknown"));
}

fn stored(size: i64) -> StoredMessage {
    StoredMessage {
        id: 12,
        kind: "mms".to_string(),
        direction: "incoming".to_string(),
        peer: "0101".to_string(),
        own_number: None,
        subject: Some("photo".to_string()),
        text: Some("look".to_string()),
        timestamp: None,
        received_at: "now".to_string(),
        status: "received".to_string(),
        external_id: None,
        attachments: vec![Attachment {
            index: 0,
            content_type: "image/jpeg".to_string(),
            name: None,
            content_id: None,
            size,
            path: "/x".to_string(),
        }],
    }
}

#[test]
fn a_multimedia_message_is_summed_up() {
    let cfg = Config::default();
    assert_eq!(
        format_mms_summary(&cfg, &stored(1536)),
        "[MMS] from 0101\nSubject: photo\n\nlook\n\n-- 1 attachment(s) --\n\
         0. part0 (image/jpeg, 1.5 KB)\n   http://127.0.0.1:8088/messages/12/attachments/0\n"
    );
    let mut bare = stored(1);
    bare.subject = Some(String::new());
    bare.text = None;
    bare.attachments.clear();
    bare.status = "pending".to_string();
    assert_eq!(format_mms_summary(&cfg, &bare), "[MMS] from 0101\n\n(status: pending)\n");
}

#[test]
fn sizes_are_written_as_floating_point_would() {
    let cfg = Config::default();
    let float = |bytes: i64| {
        let units = ["B", "KB", "MB", "GB"];
        let mut size = bytes as f64;
        let mut unit = 0;
        while size >= 1024.0 && unit < 3 {
            size /= 1024.0;
            unit += 1;
        }
        if unit == 0 { format!("{bytes} B") } else { format!("{size:.1} {}", units[unit]) }
    };
    let mut sizes: Vec<i64> = vec![
        -5, 0, 1, 1023, 1024, 1075, 1076, 1126, 1127, 1280, 1792, 2304, 1048524, 1048525, 1048575,
        1048576, 1153434, 1310720, 1835008, 1073741823, 1073741824, 1342177280, i64::MAX,
        9007199254740992, 9007199254740993, 9223372036854775295,
    ];
    let mut x: u64 = 1;
    for _ in 0..2000 {
        x = x.wrapping_mul(6364136223846793005).wrapping_add(1442695040888963407);
        sizes.push((x >> 1) as i64);
        sizes.push((x >> 20) as i64);
        sizes.push((x >> 40) as i64);
    }
    for bytes in sizes {
        let text = format_mms_summary(&cfg, &stored(bytes));
        let expected = format!("(image/jpeg, {})", float(bytes));
        assert!(text.contains(&expected), "{bytes}: {text} / {expected}");
    }
}
