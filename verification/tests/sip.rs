use modem2sip::net::{ip_string, parse_ip, parse_socket, IpAddr, SocketAddr};
use modem2sip::sip::auth::{
    answer, constant_time_eq, digest_response, md5_hex, random_hex, verify, Challenge, Credentials,
    NonceFactory,
};
use modem2sip::sip::engine::split_contacts;
use modem2sip::sip::message::{Message, Method, Request, Via};
use modem2sip::sip::sdp::{Codec, Direction, Sdp};
use modem2sip::sip::txn::{
    claim_txn, dialog_key, ip_matches, source_allowed, txn_key, Claim, ServerTxn, TXN_LIFETIME,
};
use modem2sip::sip::uri::{host_for_wire, same_target, split_host_port, NameAddr, Uri};
use modem2sip::table::Table;

fn ip(s: &str) -> IpAddr {
    parse_ip(s).unwrap()
}

// ------------------------------------------------------------------ addresses

#[test]
fn parse_uri() {
    let u = Uri::parse("sip:+821012345678@example.com:5062;transport=udp;user=phone").unwrap();
    assert_eq!(u.user.as_deref(), Some("+821012345678"));
    assert_eq!(u.host, "example.com");
    assert_eq!(u.port, Some(5062));
    assert_eq!(u.param("transport"), Some("udp"));
}

#[test]
fn parse_name_addr() {
    let n = NameAddr::parse("\"Alice\" <sip:alice@atlanta.com>;tag=1928301774").unwrap();
    assert_eq!(n.display.as_deref(), Some("Alice"));
    assert_eq!(n.tag(), Some("1928301774"));
    let n = NameAddr::parse("sip:bob@biloxi.com;tag=xyz").unwrap();
    assert_eq!(n.uri.user.as_deref(), Some("bob"));
    assert_eq!(n.tag(), Some("xyz"));
}

/// A tel: URI is all number and no host.
#[test]
fn tel_uris_carry_the_number_in_the_user_part() {
    let u = Uri::parse("tel:+821012345678").unwrap();
    assert_eq!(u.user.as_deref(), Some("+821012345678"));
    assert_eq!(u.scheme, "tel");
    let u = Uri::parse("tel:0212345678;phone-context=+82").unwrap();
    assert_eq!(u.user.as_deref(), Some("0212345678"));
    assert_eq!(u.param("phone-context"), Some("+82"));

    // It has to survive being written back out: the digest `uri` check and the dialog headers both
    // compare re-serialised URIs.
    let u = Uri::parse("tel:+821012345678").unwrap();
    assert_eq!(u.to_string(), "tel:+821012345678");
    assert_eq!(Uri::parse(&u.to_string()), Some(u));
}

/// The sip: path must be untouched by the tel: handling above.
#[test]
fn sip_uris_still_round_trip() {
    for text in [
        "sip:alice@atlanta.com",
        "sip:alice@atlanta.com:5062",
        "sip:alice@atlanta.com;transport=udp",
        "sips:bob@biloxi.com:5061",
        "sip:atlanta.com",
    ] {
        let u = Uri::parse(text).expect(text);
        assert_eq!(u.to_string(), text);
        assert_eq!(Uri::parse(&u.to_string()).as_ref(), Some(&u));
    }
}

#[test]
fn what_was_read_is_read_again() {
    for text in [
        "SIP:a:b:c@Host:+5;LR;;x=y=z?k=v&n&&=w",
        "sips:[a]:7",
        "sip:@h",
        "tel:+82;Phone-Context=+82?a=b",
        "tel:",
    ] {
        let u = Uri::parse(text).expect(text);
        assert_eq!(Uri::parse(&u.to_string()).as_ref(), Some(&u), "{text}");
    }
    let u = Uri::parse("SIP:a:b:c@Host:+5;LR;;x=y=z?k=v&n&&=w").unwrap();
    assert_eq!(u.to_string(), "sip:a:b:c@Host:5;lr;x=y=z?k=v&=w");
}

/// Replacing a parameter must not leave the old copy behind.
#[test]
fn setting_a_parameter_replaces_it() {
    let mut n = NameAddr::parse("<sip:a@h>;expires=120").unwrap();
    n.set_param("expires", Some("118"));
    assert_eq!(n.to_string(), "<sip:a@h>;expires=118");
    assert_eq!(n.params.len(), 1);
}

#[test]
fn hosts_and_ports_are_told_apart() {
    assert_eq!(split_host_port("example.com:5070"), ("example.com".to_string(), Some(5070)));
    assert_eq!(split_host_port("example.com"), ("example.com".to_string(), None));
    assert_eq!(split_host_port("[2001:db8::1]:5070"), ("2001:db8::1".to_string(), Some(5070)));
    assert_eq!(host_for_wire("2001:db8::1"), "[2001:db8::1]");
    assert_eq!(host_for_wire("10.0.0.1"), "10.0.0.1");
    assert_eq!(host_for_wire("[2001:db8::1]"), "[2001:db8::1]");
    assert!(Uri::parse("http://example.com").is_none());
    assert!(NameAddr::parse("\"no end <sip:a@b>").is_none());
}

#[test]
fn the_same_target_ignores_what_is_not_the_target() {
    let a = Uri::parse("sip:a@h:5060;transport=udp").unwrap();
    let b = Uri::parse("sip:a@h:5060").unwrap();
    let c = Uri::parse("sip:b@h:5060").unwrap();
    assert!(same_target(&a, &b));
    assert!(!same_target(&a, &c));
    assert_eq!(a.bare().to_string(), "sip:a@h:5060");
    assert_eq!(a.host_port(), "h:5060");
    assert_eq!(a.transport(), "udp");
}

#[test]
fn network_addresses_are_written_as_they_are_read() {
    for text in ["10.0.0.1", "255.255.255.255", "::1", "2001:db8::8:800:200c:417a", "::"] {
        assert_eq!(ip_string(ip(text)), text);
    }
    assert_eq!(parse_ip("256.0.0.1"), None);
    assert_eq!(parse_ip("1.2.3"), None);
    assert_eq!(parse_ip("01.2.3.4"), None);
    assert_eq!(ip_string(ip("1:0:0:2:0:0:0:3")), "1:0:0:2::3");
    let s = parse_socket("[::1]:5060").unwrap();
    assert_eq!(s, SocketAddr { ip: ip("::1"), port: 5060, scope: 0 });
    assert_eq!(parse_socket("10.0.0.1"), None);
}

// ------------------------------------------------------------------ messages

#[test]
fn round_trip_request() {
    let raw = b"INVITE sip:+8210@gw SIP/2.0\r\n\
                Via: SIP/2.0/UDP 10.0.0.1:5060;branch=z9hG4bK1\r\n\
                From: <sip:alice@gw>;tag=a\r\n\
                To: <sip:+8210@gw>\r\n\
                Call-ID: abc\r\n\
                CSeq: 1 INVITE\r\n\
                Content-Type: application/sdp\r\n\
                Content-Length: 3\r\n\r\nv=0";
    let msg = Message::parse(raw).unwrap();
    let Message::Request(req) = msg else { panic!("expected request") };
    assert_eq!(req.method, Method::Invite);
    assert_eq!(req.headers.call_id(), Some("abc"));
    assert_eq!(req.body, b"v=0");
    assert_eq!(req.headers.top_via().unwrap().branch(), Some("z9hG4bK1"));
    let encoded = req.encode();
    assert!(String::from_utf8_lossy(&encoded).contains("Call-ID: abc"));
}

#[test]
fn compact_forms_and_folding() {
    let raw = b"MESSAGE sip:gw SIP/2.0\r\ni: xyz\r\nf: <sip:a@b>;tag=1\r\n\
                Subject: hello\r\n world\r\nl: 2\r\n\r\nhi";
    let Message::Request(req) = Message::parse(raw).unwrap() else { panic!() };
    assert_eq!(req.headers.call_id(), Some("xyz"));
    assert_eq!(req.headers.get("subject"), Some("hello world"));
    assert_eq!(req.body, b"hi");
}

/// Header values are built from numbers and subjects the mobile network supplied; a CRLF in one of
/// them must not be able to close the header and write the rest of the message.
#[test]
fn a_header_value_cannot_end_its_own_line() {
    let mut req = Request::new(Method::Message, Uri::parse("sip:gw").unwrap());
    req.headers.set("from", "<sip:a@h>\r\nContact: <sip:evil@h>");
    req.headers.set("subject", "hi\nthere");
    let text = String::from_utf8(req.encode()).unwrap();
    // The injected text survives as part of the value, which is harmless; what must not survive is
    // it starting a line of its own.
    assert!(
        !text.lines().any(|l| l.starts_with("Contact:")),
        "injected header survived: {text}"
    );
    assert!(text.contains("From: <sip:a@h>Contact: <sip:evil@h>\r\n"));
    assert!(text.contains("Subject: hithere\r\n"));
}

#[test]
fn a_written_message_is_read_back() {
    let mut req = Request::new(Method::Info, Uri::parse("sip:alice@10.0.0.1:5060").unwrap());
    req.headers.push("via", "SIP/2.0/UDP 10.0.0.2:5060;rport;branch=z9hG4bKa");
    req.headers.set("call-id", "abc@h");
    req.headers.set("cseq", "7 INFO");
    req.headers.set("x-größe", "1");
    req.body = b"Signal=5\r\n".to_vec();
    let Message::Request(back) = Message::parse(&req.encode()).unwrap() else { panic!() };
    assert_eq!(back.method, Method::Info);
    assert_eq!(back.uri.to_string(), "sip:alice@10.0.0.1:5060");
    assert_eq!(back.headers.get("Call-ID"), Some("abc@h"));
    assert_eq!(back.headers.cseq(), Some((7, Method::Info)));
    assert_eq!(back.body, b"Signal=5\r\n");
    let resp = req.reply(200, "OK");
    let text = String::from_utf8(resp.encode()).unwrap();
    assert!(text.starts_with("SIP/2.0 200 OK\r\n"));
    assert!(text.contains("CSeq: 7 INFO\r\n"));
    assert!(text.ends_with("Content-Length: 0\r\n\r\n"));
    assert!(String::from_utf8(req.encode()).unwrap().contains("X-Größe: 1\r\n"));
}

#[test]
fn letters_outside_ascii_are_capitalised_in_names() {
    let mut req = Request::new(Method::Options, Uri::parse("sip:gw").unwrap());
    req.headers.push("ü-ß", "1");
    assert!(String::from_utf8(req.encode()).unwrap().contains("Ü-SS: 1\r\n"));
}

#[test]
fn broken_messages_are_not_read() {
    assert!(Message::parse(b"").is_none());
    assert!(Message::parse(b"HELLO sip:gw SIP/2.0\r\n\r\n").is_none());
    assert!(Message::parse(b"INVITE nowhere SIP/2.0\r\n\r\n").is_none());
    assert!(Message::parse(b"INVITE sip:\xff@gw SIP/2.0\r\n\r\n").is_none());
    assert!(Message::parse(b"SIP/2.0 abc OK\r\n\r\n").is_none());
}

#[test]
fn a_via_is_read_and_changed() {
    let mut v = Via::parse("SIP/2.0/UDP 10.0.0.1:5060;rport;branch=z9hG4bK1").unwrap();
    assert!(v.has_param("rport"));
    assert_eq!(v.param("rport"), None);
    v.set_param("received", Some("192.168.1.1"));
    assert_eq!(
        v.to_string(),
        "SIP/2.0/UDP 10.0.0.1:5060;rport;branch=z9hG4bK1;received=192.168.1.1"
    );
}

// ------------------------------------------------------------------ sessions

#[test]
fn parse_typical_offer() {
    let text = "v=0\r\no=- 1 1 IN IP4 10.0.0.5\r\ns=-\r\nc=IN IP4 10.0.0.5\r\nt=0 0\r\n\
                m=audio 40000 RTP/AVP 8 0 101\r\na=rtpmap:101 telephone-event/8000\r\n\
                a=ptime:20\r\na=sendrecv\r\n";
    let sdp = Sdp::parse(text).unwrap();
    assert_eq!(sdp.port, 40000);
    assert_eq!(sdp.negotiate(), Some(Codec::Pcma));
    assert_eq!(sdp.telephone_event, Some(101));
    assert_eq!(ip_string(sdp.address), "10.0.0.5");
    assert!(sdp.has_media());
}

/// An answer may only name payload types the offer listed.
#[test]
fn the_answer_echoes_the_offered_telephone_event() {
    let offer = Sdp::parse(
        "v=0\r\nc=IN IP4 10.0.0.5\r\nm=audio 40000 RTP/AVP 0 96\r\n\
         a=rtpmap:96 telephone-event/8000\r\n",
    )
    .unwrap();
    let answer = offer.answer(ip("10.0.0.1"), 16000, Codec::Pcmu, Some(101), 20);
    assert_eq!(answer.telephone_event, Some(96));
    assert!(answer.to_string().contains("a=rtpmap:96 telephone-event/8000"));
    assert!(answer.to_string().contains("m=audio 16000 RTP/AVP 0 96"));

    // Nothing offered, nothing answered - either way round.
    let plain = Sdp::parse("v=0\r\nc=IN IP4 10.0.0.5\r\nm=audio 40000 RTP/AVP 0\r\n").unwrap();
    assert_eq!(
        plain.answer(ip("10.0.0.1"), 16000, Codec::Pcmu, Some(101), 20).telephone_event,
        None
    );
    assert_eq!(
        offer.answer(ip("10.0.0.1"), 16000, Codec::Pcmu, None, 20).telephone_event,
        None
    );
}

/// An answer mirrors the offer's direction, and a peer on hold has to be told we stopped too.
#[test]
fn the_answer_mirrors_the_direction_of_the_offer() {
    let offer = |attr: &str| {
        Sdp::parse(&format!(
            "v=0\r\nc=IN IP4 10.0.0.5\r\nm=audio 40000 RTP/AVP 0\r\na={attr}\r\n"
        ))
        .unwrap()
    };
    let answer = |attr: &str| {
        offer(attr).answer(ip("10.0.0.1"), 16000, Codec::Pcmu, None, 20).sendrecv
    };
    assert_eq!(answer("sendonly"), Direction::RecvOnly, "hold must be answered recvonly");
    assert_eq!(answer("recvonly"), Direction::SendOnly);
    assert_eq!(answer("inactive"), Direction::Inactive);
    assert_eq!(answer("sendrecv"), Direction::SendRecv);
    // No attribute at all means sendrecv, and so does the answer.
    assert_eq!(
        Sdp::parse("v=0\r\nc=IN IP4 10.0.0.5\r\nm=audio 40000 RTP/AVP 0\r\n")
            .unwrap()
            .answer(ip("10.0.0.1"), 16000, Codec::Pcmu, None, 20)
            .sendrecv,
        Direction::SendRecv
    );
    // Which offers mean "expect no RTP from me", which the inactivity watchdog has to know before it
    // reads silence as a dead peer. `sendonly` is not one of them: a peer holding us with music
    // still sends. `recvonly` and `inactive` are.
    assert!(offer("sendonly").sendrecv.peer_sends());
    assert!(offer("sendrecv").sendrecv.peer_sends());
    assert!(!offer("recvonly").sendrecv.peer_sends());
    assert!(!offer("inactive").sendrecv.peer_sends());
}

/// Port 0 or a null address means "no media here".
#[test]
fn a_held_or_rejected_stream_has_no_media() {
    let held = Sdp::parse("v=0\r\nc=IN IP4 10.0.0.5\r\nm=audio 0 RTP/AVP 0\r\n").unwrap();
    assert!(!held.has_media());
    let null = Sdp::parse("v=0\r\nc=IN IP4 0.0.0.0\r\nm=audio 40000 RTP/AVP 0\r\n").unwrap();
    assert!(!null.has_media());
}

#[test]
fn an_offer_is_written_in_full() {
    let offer = Sdp::offer_at(ip("10.0.0.1"), 16384, Some(101), 20, 1700000000);
    assert_eq!(
        offer.to_string(),
        "v=0\r\no=modem2sip 1700000000 1700000000 IN IP4 10.0.0.1\r\ns=modem2sip\r\n\
         c=IN IP4 10.0.0.1\r\nt=0 0\r\nm=audio 16384 RTP/AVP 0 8 101\r\n\
         a=rtpmap:0 PCMU/8000\r\na=rtpmap:8 PCMA/8000\r\n\
         a=rtpmap:101 telephone-event/8000\r\na=fmtp:101 0-16\r\na=ptime:20\r\na=sendrecv\r\n"
    );
    let back = Sdp::parse(&offer.to_string()).unwrap();
    assert_eq!(back.port, 16384);
    assert_eq!(back.payload_types, vec![0, 8, 101]);
    assert_eq!(back.telephone_event, Some(101));
    assert_eq!(back.ptime, Some(20));
    assert!(Sdp::parse("v=0\r\n").is_none());
}

// ------------------------------------------------------------------ digest authentication

#[test]
fn rfc2617_example() {
    // Classic RFC 2617 3.5 vector (HTTP, but the algorithm is identical).
    let r = digest_response(
        "Mufasa",
        "Circle Of Life",
        "testrealm@host.com",
        "dcd98b7102dd2f0e8b11d0f600bfb0c093",
        "GET",
        "/dir/index.html",
        Some("auth"),
        Some("0a4f113b"),
        Some("00000001"),
        None,
        b"",
    );
    assert_eq!(r, "6629fae49393a05397450978507c4ef1");
}

#[test]
fn parse_challenge() {
    let c = Challenge::parse(
        "Digest realm=\"asterisk\", nonce=\"1234\", qop=\"auth\", algorithm=MD5",
    )
    .unwrap();
    assert_eq!(c.realm, "asterisk");
    assert_eq!(c.qop.as_deref(), Some("auth"));
    assert_eq!(c.algorithm.as_deref(), Some("MD5"));
}

/// Answering our own challenge has to verify, or nothing can authenticate at all, and the response
/// must be tied to the method and the URI, so that one captured header does not authorise a
/// different request.
#[test]
fn our_own_challenge_round_trips_and_is_bound_to_the_request() {
    let factory = NonceFactory::new();
    let challenge = Challenge::parse(&format!(
        "Digest realm=\"gw.local\", nonce=\"{}\", algorithm=MD5, qop=\"auth\"",
        factory.issue()
    ))
    .unwrap();
    let creds = answer(&challenge, "gateway", "s3cret", "MESSAGE", "sip:+8210@gw.local", b"hi", 1);

    assert!(factory.is_valid(&creds.nonce, 300));
    assert_eq!(creds.nc.as_deref(), Some("00000001"));
    assert!(verify(&creds, "s3cret", "MESSAGE", b"hi"));
    // Same credentials, different method or password: no.
    assert!(!verify(&creds, "s3cret", "INVITE", b"hi"));
    assert!(!verify(&creds, "wrong", "MESSAGE", b"hi"));

    // And the header survives a round trip through the wire format.
    let reparsed = Credentials::parse(&creds.to_header()).unwrap();
    assert_eq!(reparsed.uri, "sip:+8210@gw.local");
    assert_eq!(reparsed.nc.as_deref(), Some("00000001"));
    assert!(verify(&reparsed, "s3cret", "MESSAGE", b"hi"));
}

#[test]
fn a_nonce_we_did_not_issue_is_rejected() {
    let factory = NonceFactory::new();
    assert!(!factory.is_valid("1700000000:deadbeef", 300));
    assert!(!factory.is_valid("not-a-nonce", 300));
    assert!(!factory.is_valid("", 300));
    // Another instance has its own secret.
    assert!(!NonceFactory::new().is_valid(&factory.issue(), 300));
}

#[test]
fn a_nonce_grows_old() {
    let factory = NonceFactory::new();
    let nonce = factory.issue_at(1_700_000_000);
    assert!(factory.is_valid_at(&nonce, 300, 1_700_000_300));
    assert!(!factory.is_valid_at(&nonce, 300, 1_700_000_301));
}

#[test]
fn digests_and_random_texts() {
    assert_eq!(md5_hex(b""), "d41d8cd98f00b204e9800998ecf8427e");
    assert_eq!(md5_hex(b"abc"), "900150983cd24fb0d6963f7d28e17f72");
    let a = random_hex(16);
    assert_eq!(a.len(), 32);
    assert!(a.chars().all(|c| c.is_ascii_hexdigit()));
    assert_ne!(a, random_hex(16));
    assert!(constant_time_eq("", ""));
}

#[test]
fn only_md5_challenges_are_answered() {
    let sha = Challenge::parse("Digest realm=\"a\", nonce=\"1\", algorithm=SHA-256").unwrap();
    assert!(!sha.is_supported());
    let md5 = Challenge::parse("Digest realm=\"a\", nonce=\"1\"").unwrap();
    assert!(md5.is_supported());
    assert!(Challenge::parse("Digest").is_none());
}

// ------------------------------------------------------------------ transactions

#[test]
fn cidr_matching() {
    assert!(ip_matches("192.168.1.0/24", ip("192.168.1.42")));
    assert!(!ip_matches("192.168.1.0/24", ip("192.168.2.42")));
    assert!(ip_matches("10.0.0.1", ip("10.0.0.1")));
    assert!(ip_matches("0.0.0.0/0", ip("8.8.8.8")));
}

#[test]
fn an_allow_list_names_who_is_answered() {
    assert!(source_allowed(&vec![], ip("8.8.8.8")));
    let list = vec!["10.0.0.0/8".to_string(), "2001:db8::/32".to_string()];
    assert!(source_allowed(&list, ip("10.1.2.3")));
    assert!(source_allowed(&list, ip("2001:db8::5")));
    assert!(!source_allowed(&list, ip("11.1.2.3")));
    assert!(!source_allowed(&list, ip("2001:db9::5")));
    assert!(ip_matches("::/0", ip("2001:db9::5")));
    assert!(!ip_matches("::/0", ip("8.8.8.8")));
    assert!(ip_matches("2001:db9::5/128", ip("2001:db9::5")));
    assert!(!ip_matches("2001:db9::5/128", ip("2001:db9::6")));
}

/// A Contact field may be a comma separated list, and splitting it wrong turns "de-register this
/// one" into "register it for an hour".
#[test]
fn contact_lists_split_on_the_right_commas() {
    assert_eq!(
        split_contacts("<sip:a@h>;expires=0, <sip:b@h>;expires=3600"),
        vec!["<sip:a@h>;expires=0", "<sip:b@h>;expires=3600"]
    );
    assert_eq!(split_contacts("<sip:a@h>"), vec!["<sip:a@h>"]);
    // Commas inside a quoted display name or angle brackets are literal.
    assert_eq!(
        split_contacts("\"Smith, John\" <sip:j@h>, <sip:b@h>"),
        vec!["\"Smith, John\" <sip:j@h>", "<sip:b@h>"]
    );
    assert_eq!(split_contacts("<sip:a@h;x=1,2>"), vec!["<sip:a@h;x=1,2>"]);
    assert!(split_contacts("  ").is_empty());
}

/// The ACK for a 2xx is a transaction of its own with a branch of its own, so the 2xx it confirms
/// can only be found through the Call-ID and the INVITE's sequence number.
#[test]
fn an_ack_is_matched_to_the_invite_it_confirms() {
    let raw = |method: &str, call_id: &str, cseq: u32| {
        let text = format!(
            "{method} sip:x@gw SIP/2.0\r\nVia: SIP/2.0/UDP h;branch=z9hG4bK{cseq}{method}\r\n\
             From: <sip:a@h>;tag=1\r\nTo: <sip:x@gw>;tag=2\r\nCall-ID: {call_id}\r\n\
             CSeq: {cseq} {method}\r\n\r\n"
        );
        match Message::parse(text.as_bytes()).unwrap() {
            Message::Request(r) => r,
            _ => panic!("expected a request"),
        }
    };
    // Different branches, same dialog and sequence number: a match.
    assert_eq!(
        dialog_key(&raw("INVITE", "call-1", 7)),
        dialog_key(&raw("ACK", "call-1", 7))
    );
    // An ACK for a different call or a different INVITE is not.
    assert_ne!(
        dialog_key(&raw("INVITE", "call-1", 7)),
        dialog_key(&raw("ACK", "call-2", 7))
    );
    assert_ne!(
        dialog_key(&raw("INVITE", "call-1", 7)),
        dialog_key(&raw("ACK", "call-1", 8))
    );
}

/// A CANCEL reuses the INVITE's branch, so the transaction key has to keep them apart or its 200 OK
/// lands in the INVITE's transaction.
#[test]
fn transaction_keys_separate_cancel_from_invite() {
    let raw = |method: &str| {
        let text = format!(
            "{method} sip:x@gw SIP/2.0\r\nVia: SIP/2.0/UDP h;branch=z9hG4bK1\r\n\
             From: <sip:a@h>;tag=1\r\nTo: <sip:x@gw>\r\nCall-ID: c\r\n\
             CSeq: 7 {method}\r\n\r\n"
        );
        match Message::parse(text.as_bytes()).unwrap() {
            Message::Request(r) => r,
            _ => panic!("expected a request"),
        }
    };
    assert_ne!(txn_key(&raw("INVITE")), txn_key(&raw("CANCEL")));
    assert_eq!(txn_key(&raw("INVITE")), txn_key(&raw("INVITE")));
}

/// A retransmitted request has to be recognised while it is still being handled, not only once it
/// has been answered.
#[test]
fn a_transaction_is_claimed_before_the_work_starts() {
    let mut cache = Table::new();
    let key = "z9hG4bK1|7|MESSAGE";
    let t0: u64 = 1_000_000;

    assert_eq!(claim_txn(&mut cache, key, t0), Claim::Fresh, "the first copy is handled");
    // A retransmission arriving while the modem is still sending the SMS must not reach the handler
    // a second time.
    assert_eq!(claim_txn(&mut cache, key, t0 + 500), Claim::InFlight(None));

    // Once a provisional has gone out, a retransmission gets it again - that is what stops the
    // caller's own retransmission timer.
    cache.insert(
        key,
        ServerTxn::InProgress { since: t0, provisional: Some(b"SIP/2.0 100".to_vec()) },
    );
    assert_eq!(
        claim_txn(&mut cache, key, t0 + 4_000),
        Claim::InFlight(Some(b"SIP/2.0 100".to_vec()))
    );

    cache.insert(key, ServerTxn::Completed { bytes: b"SIP/2.0 202".to_vec(), at: t0 });
    assert_eq!(
        claim_txn(&mut cache, key, t0 + 1_000),
        Claim::Answered(b"SIP/2.0 202".to_vec()),
        "once answered, a copy replays the answer"
    );

    // Past the transaction lifetime the entry is a stale collision from a UA that restarted its
    // branch counter, not a retransmission - it must not have a minutes-old response replayed at it.
    assert_eq!(claim_txn(&mut cache, key, t0 + TXN_LIFETIME * 2), Claim::Fresh);
    // A different transaction is never confused with this one.
    assert_eq!(claim_txn(&mut cache, "z9hG4bK1|8|MESSAGE", t0), Claim::Fresh);
}
