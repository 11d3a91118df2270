use modem2sip::config::{Sip, SipAuth, Upstream};
use modem2sip::net::{parse_ip, parse_socket, SocketAddr};
use modem2sip::sip::auth::{answer, Challenge};
use modem2sip::sip::engine::{
    read_datagram, resolve_target, Access, Action, Datagram, NoTarget, Resend, SipCore, Transaction,
};
use modem2sip::sip::message::{Message, Method, Request, Response};
use modem2sip::sip::register::{
    build_register, refresh_after, register_once, registrar_uri, Pace, RegisterError,
};
use modem2sip::sip::registrar::Registrar;
use modem2sip::sip::transport::{probe_address, resolve_uri, Route};
use modem2sip::sip::uri::{NameAddr, Uri};

fn addr(s: &str) -> SocketAddr {
    parse_socket(s).unwrap()
}

fn element(cfg: Sip) -> SipCore {
    SipCore::new(cfg, addr("10.0.0.2:5060"), true).unwrap()
}

fn request(method: Method, branch: &str, cseq: u32) -> Request {
    let mut req = Request::new(method, Uri::parse("sip:0101@gw").unwrap());
    req.headers.push("via", &format!("SIP/2.0/UDP 192.168.0.9:5060;rport;branch={branch}"));
    req.headers.push("from", "<sip:alice@gw>;tag=a");
    req.headers.push("to", "<sip:0101@gw>");
    req.headers.push("call-id", "c1");
    req.headers.push("cseq", &format!("{cseq} {}", method.as_str()));
    req
}

fn sent(action: Action) -> Response {
    match action {
        Action::Respond(out) => match Message::parse(&out.bytes) {
            Some(Message::Response(r)) => r,
            other => panic!("{other:?}"),
        },
        other => panic!("{other:?}"),
    }
}

#[test]
fn a_request_is_handed_on_once_and_answered_again() {
    let mut core = element(Sip::default());
    let src = addr("10.0.0.5:5061");
    let req = request(Method::Message, "z9hG4bK1", 1);
    assert!(matches!(core.on_request(&req, src, None, 1000, 0, "t").action, Action::HandOn));
    assert!(matches!(core.on_request(&req, src, None, 1500, 0, "t").action, Action::Ignore));
    let resp = core.make_response_with(&req, 202, None, "t");
    let out = core.respond(&req, src, resp, None, 2000);
    let Some(Message::Response(r)) = Message::parse(&out.bytes) else { panic!() };
    assert_eq!(r.code, 202);
    // The source is reflected, so that the answer finds its way back.
    assert_eq!(
        r.headers.get("via"),
        Some("SIP/2.0/UDP 192.168.0.9:5060;branch=z9hG4bK1;received=10.0.0.5;rport=5061")
    );
    match core.on_request(&req, src, None, 2500, 0, "t").action {
        Action::Replay(bytes) => assert_eq!(bytes, out.bytes),
        other => panic!("{other:?}"),
    }
    core.gc(2_000_000);
    assert!(matches!(
        core.on_request(&req, src, None, 2_000_000, 0, "t").action,
        Action::HandOn
    ));
}

#[test]
fn an_answered_invite_is_repeated_until_its_ack() {
    let mut core = element(Sip::default());
    let src = addr("10.0.0.5:5061");
    let req = request(Method::Invite, "z9hG4bK1", 1);
    core.on_request(&req, src, None, 1000, 0, "t");
    let resp = core.make_response_with(&req, 200, None, "t");
    let out = core.respond(&req, src, resp, None, 2000);
    let (_, timer) = out.repeat.expect("a 2xx is repeated");
    let ack = request(Method::Ack, "z9hG4bK2", 1);
    let step = core.on_request(&ack, src, None, 2100, 0, "t");
    assert_eq!(step.confirmed, Some(timer));
    assert!(matches!(step.action, Action::HandOn));
}

#[test]
fn strangers_are_forbidden() {
    let mut core = element(Sip { allow: vec!["10.0.0.0/8".to_string()], ..Sip::default() });
    let req = request(Method::Options, "z9hG4bK1", 1);
    let r = sent(core.on_request(&req, addr("11.0.0.5:5061"), None, 0, 0, "t").action);
    assert_eq!(r.code, 403);
    let req = request(Method::Options, "z9hG4bK2", 2);
    let r = sent(core.on_request(&req, addr("10.0.0.5:5061"), None, 0, 0, "t").action);
    assert_eq!(r.code, 200);
}

#[test]
fn options_tell_whether_the_modem_is_there() {
    let mut core = element(Sip::default());
    let req = request(Method::Options, "z9hG4bK1", 1);
    assert_eq!(core.handle_options(&req, "t").code, 200);
    core.modem_ready = false;
    let r = core.handle_options(&req, "t");
    assert_eq!(r.code, 503);
    assert!(r.headers.get("retry-after").is_some());
}

#[test]
fn credentials_let_in_once() {
    let cfg = Sip {
        auth: Some(SipAuth { username: "u".to_string(), password: "p".to_string() }),
        domain: Some("gw".to_string()),
        ..Sip::default()
    };
    let mut core = element(cfg);
    let src = addr("10.0.0.5:5061");
    let req = request(Method::Message, "z9hG4bK1", 1);
    let r = sent(core.on_request(&req, src, None, 0, 1_700_000_000, "t").action);
    assert_eq!(r.code, 401);
    let challenge = Challenge::parse(r.headers.get("www-authenticate").unwrap()).unwrap();
    assert_eq!(challenge.realm, "gw");
    let creds = answer(&challenge, "u", "p", "MESSAGE", "sip:0101@gw", b"", 1);
    let mut again = request(Method::Message, "z9hG4bK2", 2);
    again.headers.set("authorization", &creds.to_header());
    assert_eq!(core.check_auth(&again, 0, 1_700_000_001), Access::Granted);
    assert!(matches!(
        core.check_auth(&again, 0, 1_700_000_001),
        Access::Challenge { .. }
    ));
    let wrong = answer(&challenge, "u", "x", "MESSAGE", "sip:0101@gw", b"", 2);
    again.headers.set("authorization", &wrong.to_header());
    assert_eq!(
        core.check_auth(&again, 0, 1_700_000_001),
        Access::Challenge { stale: false }
    );
    // Good credentials are good for their own address alone, and for their realm.
    let moved = answer(&challenge, "u", "p", "MESSAGE", "sip:0999@gw", b"", 2);
    again.headers.set("authorization", &moved.to_header());
    assert_eq!(
        core.check_auth(&again, 0, 1_700_000_001),
        Access::Challenge { stale: false }
    );
    // A good answer to a nonce that has grown old is asked for again.
    let late = answer(&challenge, "u", "p", "MESSAGE", "sip:0101@gw", b"", 3);
    again.headers.set("authorization", &late.to_header());
    assert_eq!(
        core.check_auth(&again, 0, 1_800_000_000),
        Access::Challenge { stale: true }
    );
}

#[test]
fn a_nonce_without_a_count_is_used_once() {
    let cfg = Sip {
        auth: Some(SipAuth { username: "u".to_string(), password: "p".to_string() }),
        domain: Some("gw".to_string()),
        ..Sip::default()
    };
    let mut core = element(cfg);
    let src = addr("10.0.0.5:5061");
    let req = request(Method::Message, "z9hG4bK1", 1);
    let r = sent(core.on_request(&req, src, None, 0, 1_700_000_000, "t").action);
    let mut plain = Challenge::parse(r.headers.get("www-authenticate").unwrap()).unwrap();
    plain.qop = None;
    let creds = answer(&plain, "u", "p", "MESSAGE", "sip:0101@gw", b"", 1);
    assert_eq!(creds.qop, None);
    let mut again = request(Method::Message, "z9hG4bK2", 2);
    again.headers.set("authorization", &creds.to_header());
    assert_eq!(core.check_auth(&again, 0, 1_700_000_001), Access::Granted);
    // A number that the digest does not cover makes no difference, whatever it is.
    for nc in ["00000001", "00000002", "ffffffff"] {
        again.headers.set("authorization", &format!("{}, nc={nc}", creds.to_header()));
        assert_eq!(
            core.check_auth(&again, 0, 1_700_000_001),
            Access::Challenge { stale: true }
        );
    }
    // With a count of its own each answer is good, once.
    let req = request(Method::Message, "z9hG4bK3", 3);
    let r = sent(core.on_request(&req, src, None, 0, 1_700_000_001, "t").action);
    let counted = Challenge::parse(r.headers.get("www-authenticate").unwrap()).unwrap();
    for nc in [1, 2] {
        let creds = answer(&counted, "u", "p", "MESSAGE", "sip:0101@gw", b"", nc);
        again.headers.set("authorization", &creds.to_header());
        assert_eq!(core.check_auth(&again, 0, 1_700_000_001), Access::Granted);
        assert_eq!(
            core.check_auth(&again, 0, 1_700_000_001),
            Access::Challenge { stale: true }
        );
    }
}

#[test]
fn a_forgotten_nonce_is_too_old() {
    let cfg = Sip {
        auth: Some(SipAuth { username: "u".to_string(), password: "p".to_string() }),
        domain: Some("gw".to_string()),
        ..Sip::default()
    };
    let mut core = element(cfg);
    let src = addr("10.0.0.5:5061");
    let mut first = None;
    for i in 0..70 {
        let req = request(Method::Message, &format!("z9hG4bK{i}"), 1);
        let r = sent(core.on_request(&req, src, None, 0, 1_700_000_000 + i, "t").action);
        let challenge = Challenge::parse(r.headers.get("www-authenticate").unwrap()).unwrap();
        let creds = answer(&challenge, "u", "p", "MESSAGE", "sip:0101@gw", b"", 1);
        let mut again = request(Method::Message, "z9hG4bK2", 2);
        again.headers.set("authorization", &creds.to_header());
        assert_eq!(core.check_auth(&again, 0, 1_700_000_000 + i), Access::Granted);
        first.get_or_insert(again);
    }
    let again = first.unwrap();
    core.gc(600_000);
    assert_eq!(
        core.check_auth(&again, 600_000, 1_700_000_600),
        Access::Challenge { stale: true }
    );
}

#[test]
fn registrations_are_kept_and_removed() {
    let mut core = element(Sip::default());
    let src = addr("10.0.0.5:5061");
    let mut req = request(Method::Register, "z9hG4bK1", 1);
    req.headers.set("contact", "<sip:alice@192.168.0.9:5060>;expires=120");
    core.modem_ready = false;
    let r = core.handle_register(&req, src, 0, "t");
    assert_eq!(r.code, 200);
    assert_eq!(r.headers.get("contact"), Some("<sip:alice@192.168.0.9:5060>;expires=120"));
    let (uri, route) = resolve_target(&mut core, None, 1000).unwrap();
    assert_eq!(uri.to_string(), "sip:alice@192.168.0.9:5060");
    // Calls go to where the registration came from.
    assert!(matches!(route, Route::Address(a) if a == src));
    assert_eq!(
        resolve_target(&mut core, None, 121_000).err(),
        Some(NoTarget::NobodyRegistered)
    );
    core.handle_register(&req, src, 200_000, "t");
    req.headers.set("contact", "*");
    req.headers.set("expires", "0");
    core.handle_register(&req, src, 200_001, "t");
    assert!(resolve_target(&mut core, None, 200_002).is_err());
    assert_eq!(
        resolve_target(&mut core, Some("nonsense"), 0).err(),
        Some(NoTarget::Invalid("nonsense".to_string()))
    );
    let (_, route) = resolve_target(&mut core, Some("sip:a@pbx.example:5070"), 0).unwrap();
    assert!(matches!(route, Route::Lookup { host, port: 5070 } if host == "pbx.example"));
    assert!(matches!(
        resolve_uri(&Uri::parse("sip:a@[::1]").unwrap()),
        Route::Address(a) if a == addr("[::1]:5060")
    ));
    assert_eq!(probe_address(addr("10.0.0.1:80")).port, 0);
}

#[test]
fn the_newest_binding_wins() {
    let mut r = Registrar::new();
    let a = NameAddr::parse("<sip:a@h1>").unwrap();
    let b = NameAddr::parse("<sip:a@h2>").unwrap();
    r.update("sip:a@gw", a, addr("10.0.0.5:1"), 60, 0);
    r.update("sip:a@gw", b, addr("10.0.0.5:2"), 60, 10);
    assert_eq!(r.contacts("sip:a@gw", 20).len(), 2);
    assert_eq!(r.newest(20).unwrap().contact.uri.host, "h2");
    r.remove_all("sip:a@gw");
    assert!(r.newest(20).is_none());
}

#[test]
fn our_own_requests_find_their_responses() {
    let mut core = element(Sip::default());
    let from = NameAddr::parse("<sip:gw@h>;tag=1").unwrap();
    let to = NameAddr::parse("<sip:a@h>").unwrap();
    let req = core.build_request_with(
        Method::Message,
        Uri::parse("sip:a@h").unwrap(),
        &from,
        &to,
        "c",
        5,
        parse_ip("10.0.0.2"),
        true,
        "xyz",
    );
    assert_eq!(
        req.headers.get("via"),
        Some("SIP/2.0/UDP 10.0.0.2:5060;rport;branch=z9hG4bKxyz")
    );
    assert_eq!(req.headers.get("contact"), Some("<sip:gw@10.0.0.2:5060;transport=udp>"));
    let (branch, bytes) = core.send_request(&req).unwrap();
    assert_eq!(branch, "z9hG4bKxyz");
    assert_eq!(bytes, req.encode());
    let resp = req.reply(200, "OK");
    assert_eq!(core.on_response(&resp), Some(("z9hG4bKxyz".to_string(), true)));
    let mut stray = req.reply(200, "OK");
    stray.headers.set("cseq", "5 CANCEL");
    assert_eq!(core.on_response(&stray), None);
    core.close_transaction("z9hG4bKxyz");
    assert_eq!(core.on_response(&resp), None);
    let mut broken = req.clone();
    broken.headers.remove("via");
    assert!(core.send_request(&broken).is_err());
}

#[test]
fn a_challenge_is_answered_with_credentials() {
    let mut core = element(Sip::default());
    let req = request(Method::Message, "z9hG4bK1", 1);
    let mut resp = req.reply(407, "Proxy");
    assert!(matches!(core.transact(&req, &resp, None), Transaction::Done));
    assert!(matches!(
        core.transact(&req, &resp, Some(("u", "p"))),
        Transaction::Unanswerable { code: 407 }
    ));
    resp.headers.set("proxy-authenticate", "Digest realm=\"r\", nonce=\"n\"");
    match core.transact_with(&req, &resp, Some(("u", "p")), "cn", "b9") {
        Transaction::Again(again) => {
            assert!(again.headers.get("proxy-authorization").is_some());
            assert_eq!(again.headers.top_via().unwrap().branch(), Some("z9hG4bKb9"));
            assert_eq!(again.headers.cseq(), Some((1, Method::Message)));
        }
        other => panic!("{other:?}"),
    }
}

#[test]
fn retransmission_slows_down_and_ends() {
    let mut t = Resend::start();
    let mut waits = vec![];
    while let Some(w) = t.wait() {
        waits.push(w);
        t.sent();
        assert!(waits.len() < 100);
    }
    assert_eq!(&waits[0..5], &[500, 1000, 2000, 4000, 4000]);
    assert!(waits.iter().sum::<u64>() >= 32_000);
}

#[test]
fn datagrams_are_sorted() {
    assert!(matches!(read_datagram(b"\r\n\r\n"), Datagram::KeepAlive));
    assert!(matches!(read_datagram(b"\xff\xfe"), Datagram::Unreadable));
    assert!(matches!(
        read_datagram(b"OPTIONS sip:gw SIP/2.0\r\n\r\n"),
        Datagram::Message(Message::Request(_))
    ));
    assert!(SipCore::new(
        Sip { public_ip: Some("nowhere".to_string()), ..Sip::default() },
        addr("10.0.0.2:5060"),
        false
    )
    .is_err());
}

#[test]
fn registration_upstream() {
    let mut core = element(Sip::default());
    let up = Upstream {
        registrar: "sip:pbx.example".to_string(),
        username: "gw".to_string(),
        password: "p".to_string(),
        ..Upstream::default()
    };
    let registrar = registrar_uri(&up).unwrap();
    let (req, own) =
        build_register(&mut core, &up, &registrar, "cid", "t", 3600, parse_ip("10.0.0.2"), "b");
    assert_eq!(req.method, Method::Register);
    let mut ok = req.reply(200, "OK");
    ok.headers.push("contact", &format!("<{}>;expires=600", own.to_string()));
    let mut expires = 3600;
    assert_eq!(register_once(&ok, &own, &mut expires), Ok(600));
    let mut brief = req.reply(423, "Interval Too Brief");
    brief.headers.set("min-expires", "7200");
    assert_eq!(
        register_once(&brief, &own, &mut expires),
        Err(RegisterError::TooBrief { min: 7200 })
    );
    assert_eq!(expires, 7200);
    assert!(matches!(
        register_once(&req.reply(403, "Forbidden"), &own, &mut expires),
        Err(RegisterError::Refused { code: 403, .. })
    ));
    assert!(refresh_after(600) < 600);
    let mut pace = Pace::new();
    let first = pace.after(None);
    assert!(pace.after(None) >= first);
    assert!(registrar_uri(&Upstream { registrar: "x".to_string(), ..Upstream::default() }).is_err());
}
