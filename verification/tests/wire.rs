//! What is written is read back: URIs, parties, Via values, messages, digest headers, descriptions
//! and addresses.
use modem2sip::net::{ip_string, parse_ip, parse_socket, socket_string, v4, IpAddr, SocketAddr};
use modem2sip::sip::auth::{answer_with, verify, Challenge, Credentials};
use modem2sip::sip::message::{Headers, Message, Method, Request, Response, Via};
use modem2sip::sip::sdp::{Direction, Sdp};
use modem2sip::sip::uri::{NameAddr, Uri};

fn text_of_uri(s: &str) -> String {
    Uri::parse(s).expect("a URI").to_string()
}

#[test]
fn uris_come_back_as_written() {
    for s in [
        "sip:alice@example.com",
        "sips:alice:secret@example.com:5061;transport=tcp;lr?subject=hi&priority=urgent",
        "sip:192.0.2.1",
        "sip:gateway.example:5070;maddr=10.0.0.1",
        "tel:+821012345678;phone-context=example.com",
        "sip:a@b@host",
    ] {
        assert_eq!(text_of_uri(s), s);
    }
    let uri = Uri::parse("sips:alice:secret@example.com:5061;transport=tcp;lr?subject=hi").unwrap();
    assert_eq!(Uri::parse(&uri.to_string()), Some(uri));
}

#[test]
fn a_bracketed_host_loses_its_brackets() {
    let uri = Uri::parse("sip:a@[2001:db8::1]:5060").unwrap();
    assert_eq!(uri.host, "2001:db8::1");
    assert_eq!(uri.to_string(), "sip:a@2001:db8::1:5060");
    assert_ne!(Uri::parse(&uri.to_string()), Some(uri));
}

#[test]
fn parties_come_back_as_written() {
    for s in [
        "\"Alice A.\" <sip:alice@example.com;transport=udp>;tag=x1;messagetype=sms",
        "<sip:bob@10.0.0.2:5062>;lr",
        "\"\" <tel:+15551234>",
    ] {
        let p = NameAddr::parse(s).expect("a party");
        assert_eq!(p.to_string(), s);
    }
}

#[test]
fn a_parameter_that_is_set_is_the_one_found() {
    let mut p = NameAddr::parse("<sip:a@b>;Tag=one;x=2").unwrap();
    p.set_param("TAG", Some("two"));
    assert_eq!(p.param("tag"), Some("two"));
    assert_eq!(p.param("x"), Some("2"));
    assert_eq!(p.to_string(), "<sip:a@b>;x=2;tag=two");
    let mut u = Uri::parse("sip:a@b;transport=udp;lr").unwrap();
    u.set_param("Transport", Some("tcp"));
    assert_eq!(u.param("transport"), Some("tcp"));
    assert!(u.has_param("lr"));
    assert_eq!(u.params.len(), 2);
}

#[test]
fn vias_come_back_as_written() {
    for s in [
        "SIP/2.0/UDP 10.0.0.1:5060;branch=z9hG4bKabc;rport",
        "SIP/2.0/UDP gateway.example",
        "SIP/2.0/TCP host;received=192.0.2.9",
    ] {
        assert_eq!(Via::parse(s).expect("a Via").to_string(), s);
    }
}

#[test]
fn a_request_comes_back_with_its_length() {
    let mut req = Request::new(Method::Message, Uri::parse("sip:bob@10.0.0.2;x=1").unwrap());
    req.headers.push("Via", "SIP/2.0/UDP 10.0.0.1;branch=z9hG4bK1");
    req.headers.push("X-Odd", "  a\r\nInjected: b  ");
    req.headers.push("Content-Length", "9999");
    req.body = b"\r\n\r\nbody\r\n\r\n".to_vec();
    let bytes = req.encode();
    match Message::parse(&bytes) {
        Some(Message::Request(r)) => {
            assert_eq!(r.method, Method::Message);
            assert_eq!(r.uri, req.uri);
            assert_eq!(r.body, req.body);
            assert_eq!(r.headers.get("content-length"), Some("12"));
            assert_eq!(r.headers.get("x-odd"), Some("aInjected: b"));
            assert_eq!(r.headers.get("injected"), None);
            assert_eq!(r.headers.get("via"), Some("SIP/2.0/UDP 10.0.0.1;branch=z9hG4bK1"));
            assert_eq!(r.headers.0.len(), 3);
        }
        _ => panic!("not a request"),
    }
}

#[test]
fn a_response_comes_back_with_its_length() {
    let resp = Response {
        code: 183,
        reason: "Session\r\nProgress".to_string(),
        headers: Headers(vec![
            ("call-id".to_string(), "x@y".to_string()),
            ("cseq".to_string(), "7 INVITE".to_string()),
        ]),
        body: "감사".as_bytes().to_vec(),
    };
    match Message::parse(&resp.encode()) {
        Some(Message::Response(r)) => {
            assert_eq!(r.code, 183);
            assert_eq!(r.reason, "SessionProgress");
            assert_eq!(r.body, resp.body);
            assert_eq!(r.headers.cseq(), Some((7, Method::Invite)));
            assert_eq!(r.headers.get("l"), Some("6"));
        }
        _ => panic!("not a response"),
    }
}

#[test]
fn an_answer_survives_the_wire() {
    let challenge = Challenge::parse(
        "Digest realm=\"a, b\", nonce=\"n=1,2\", algorithm=MD5, qop=\"auth,auth-int\", opaque=\"o\"",
    )
    .unwrap();
    let creds = answer_with(&challenge, "bob", "pw", "INVITE", "sip:x@y", b"", 1, "c0ffee");
    let written = creds.to_header();
    assert!(written.starts_with("Digest username=\"bob\", realm=\"a, b\", nonce=\"n=1,2\""));
    let read = Credentials::parse(&written).unwrap();
    assert_eq!(read.username, "bob");
    assert_eq!(read.realm, "a, b");
    assert_eq!(read.nonce, "n=1,2");
    assert_eq!(read.uri, "sip:x@y");
    assert_eq!(read.response, creds.response);
    assert_eq!(read.algorithm.as_deref(), Some("MD5"));
    assert_eq!(read.qop.as_deref(), Some("auth"));
    assert_eq!(read.nc.as_deref(), Some("00000001"));
    assert_eq!(read.cnonce.as_deref(), Some("c0ffee"));
    assert_eq!(read.opaque.as_deref(), Some("o"));
    assert!(verify(&read, "pw", "INVITE", b""));
    assert!(!verify(&read, "other", "INVITE", b""));
}

#[test]
fn a_description_comes_back() {
    for ip in [v4(10, 0, 0, 1), parse_ip("2001:db8::7").unwrap()] {
        let sdp = Sdp {
            origin_user: "modem".to_string(),
            session_id: 17,
            session_version: 18,
            address: ip,
            port: 20002,
            payload_types: vec![8, 0],
            telephone_event: Some(101),
            ptime: Some(20),
            sendrecv: Direction::SendOnly,
        };
        let read = Sdp::parse(&sdp.to_string()).unwrap();
        assert_eq!(read.address, ip);
        assert_eq!(read.port, 20002);
        assert_eq!(read.payload_types, vec![8, 0, 101]);
        assert_eq!(read.telephone_event, Some(101));
        assert_eq!(read.ptime, Some(20));
        assert_eq!(read.sendrecv, Direction::SendOnly);
        assert_eq!(read.origin_user, "-");
        assert_eq!(read.session_id, 0);
    }
}

#[test]
fn addresses_come_back() {
    for s in [
        "0.0.0.0",
        "255.1.20.3",
        "::",
        "::1",
        "2001:db8::7",
        "fe80::1:0:0:1",
        "1:2:3:4:5:6:7:8",
        "::ffff:192.0.2.33",
        "1:0:0:2::",
    ] {
        assert_eq!(ip_string(parse_ip(s).expect("an address")), s);
    }
    let a = SocketAddr { ip: IpAddr::V6(1), port: 5060, scope: 0 };
    assert_eq!(socket_string(a), "[::1]:5060");
    assert_eq!(parse_socket("[::1]:5060"), Some(a));
    let b = SocketAddr { ip: v4(192, 0, 2, 1), port: 0, scope: 0 };
    assert_eq!(parse_socket(&socket_string(b)), Some(b));
    let c = SocketAddr { ip: parse_ip("fe80::1").unwrap(), port: 5060, scope: 3 };
    assert_eq!(socket_string(c), "[fe80::1%3]:5060");
    assert_eq!(parse_socket("[fe80::1%3]:5060"), Some(c));
    assert_eq!(parse_socket("[fe80::1%eth0]:5060"), None);
}
