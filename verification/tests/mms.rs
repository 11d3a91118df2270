use modem2sip::mms::dns::{
    build_query, classify, parse_answer, DnsError, LookupAction, Reply, Resolver, TYPE_A, TYPE_AAAA,
    TYPE_CNAME,
};
use modem2sip::mms::pdu::{
    build_smil, decode, encode_acknowledge_ind, encode_notify_resp_ind, encode_send_req, field,
    format_address, msg_type, MmsPart, PduError, SendReq, VERSION_1_2,
};
use modem2sip::mms::wsp::{
    charset_for, content_type_code, content_type_name, write_encoded_string, write_integer_value,
    write_long_int, write_text_string, write_uintvar, write_value_length, Reader,
};
use modem2sip::mms::{is_mms_push, is_wap_push, parse_wap_push, PushError};
use modem2sip::net::{ip_string, parse_ip, SocketAddr};

// ------------------------------------------------------------------ encodings

#[test]
fn uintvar_round_trip() {
    for v in [0u64, 1, 127, 128, 300, 16384, 1_000_000] {
        let mut buf = Vec::new();
        write_uintvar(&mut buf, v);
        let mut r = Reader::new(&buf);
        assert_eq!(r.uintvar(), Some(v), "value {v}");
        assert!(r.eof());
    }
}

#[test]
fn text_and_encoded_strings() {
    let mut buf = Vec::new();
    write_text_string(&mut buf, "hello");
    let mut r = Reader::new(&buf);
    assert_eq!(r.text_string().as_deref(), Some("hello"));

    let mut buf = Vec::new();
    write_encoded_string(&mut buf, "안녕하세요");
    let mut r = Reader::new(&buf);
    assert_eq!(r.encoded_string().as_deref(), Some("안녕하세요"));
}

#[test]
fn charset_uses_the_canonical_short_form() {
    // Real carrier PDUs write UTF-8 as 0xEA; the long form (0x01 0x6A) is legal but gets rejected in
    // practice.
    let mut buf = Vec::new();
    write_encoded_string(&mut buf, "한글");
    assert_eq!(buf[1], 0xEA, "charset must be a short integer: {buf:02x?}");

    let mut buf = Vec::new();
    write_integer_value(&mut buf, 106);
    assert_eq!(buf, vec![0xEA]);
    let mut buf = Vec::new();
    write_integer_value(&mut buf, 1000);
    assert_eq!(buf, vec![0x02, 0x03, 0xE8]);
}

#[test]
fn well_known_content_type() {
    let buf = [0x80 | 0x1E];
    let mut r = Reader::new(&buf);
    let (name, params) = r.content_type().unwrap();
    assert_eq!(name, "image/jpeg");
    assert!(params.is_empty());
}

#[test]
fn content_types_and_their_codes_agree() {
    let mut listed = 0;
    for code in 0..=255u8 {
        let name = content_type_name(code);
        match content_type_code(&name) {
            Some(c) => {
                assert_eq!(c, code);
                listed += 1;
            }
            None => assert_eq!(name, "application/octet-stream"),
        }
    }
    assert_eq!(listed, 57);
    assert_eq!(content_type_code("IMAGE/Jpeg"), Some(0x1e));
    assert_eq!(content_type_code("application/octet-stream"), None);
}

/// 0x1F + uintvar(0xFFFFFFFF), i.e. "this value is 4 GiB long".
const HUGE_LEN: [u8; 6] = [0x1F, 0x8F, 0xFF, 0xFF, 0xFF, 0x7F];

/// A length field that overruns the buffer must clamp, never panic.
#[test]
fn declared_lengths_cannot_run_past_the_buffer() {
    let with = |tail: &[u8]| [&HUGE_LEN[..], tail].concat();

    assert_eq!(Reader::new(&HUGE_LEN).bounded_value_length(), Some(0));
    // charset UTF-8 (0xEA) then the text: only one byte of it arrived.
    assert_eq!(Reader::new(&with(&[0xEA, b'x'])).encoded_string().as_deref(), Some("x"));
    assert_eq!(Reader::new(&with(b"text/plain\0")).content_type().unwrap().0, "text/plain");
    assert!(Reader::new(&with(b"junk")).skip_value().is_some());
    assert!(Reader::new(&HUGE_LEN).content_type().is_none());

    // Plain short length that is simply longer than what is left.
    let over = [0x1Eu8, 0xEA, b'a'];
    assert_eq!(Reader::new(&over).encoded_string().as_deref(), Some("a"));
    assert_eq!(Reader::new(&over).bounded_value_length(), Some(2));
}

/// 0x10 ("secure") is a No-value parameter; consuming a byte for it would desynchronise everything
/// after it in the list.
#[test]
fn no_value_parameter_does_not_eat_the_next_one() {
    let mut buf = vec![0x80 | 0x10]; // secure, no value
    buf.push(0x80 | 0x05); // name
    write_text_string(&mut buf, "p.jpg");
    let mut r = Reader::new(&buf);
    assert_eq!(r.parameter(), Some(("secure".into(), String::new())));
    assert_eq!(r.parameter(), Some(("name".into(), "p.jpg".into())));
    assert!(r.eof());
}

#[test]
fn texts_in_other_charsets_are_decoded() {
    assert_eq!(charset_for(106), "UTF-8");
    // "한글" in EUC-KR.
    let buf = [5u8, 0x80 | 38, 0xC7, 0xD1, 0xB1, 0xDB];
    assert_eq!(charset_for(38), "EUC-KR");
    assert_eq!(Reader::new(&buf).encoded_string().as_deref(), Some("한글"));
    assert_eq!(content_type_code("image/jpeg"), Some(0x1E));
    assert_eq!(content_type_code("no/such"), None);
    assert_eq!(content_type_name(0x1E), "image/jpeg");
}

// ------------------------------------------------------------------ messages

#[test]
fn notification_round_trip() {
    // Hand-built M-Notification.ind.
    let mut pdu = Vec::new();
    pdu.push(field::MESSAGE_TYPE);
    pdu.push(msg_type::NOTIFICATION_IND);
    pdu.push(field::TRANSACTION_ID);
    write_text_string(&mut pdu, "TID123");
    pdu.push(field::MMS_VERSION);
    pdu.push(VERSION_1_2);
    pdu.push(field::FROM);
    let mut inner = vec![0x80];
    write_text_string(&mut inner, "+821012345678/TYPE=PLMN");
    write_value_length(&mut pdu, inner.len());
    pdu.extend_from_slice(&inner);
    pdu.push(field::SUBJECT);
    write_encoded_string(&mut pdu, "사진");
    pdu.push(field::MESSAGE_SIZE);
    write_long_int(&mut pdu, 45678);
    pdu.push(field::CONTENT_LOCATION);
    write_text_string(&mut pdu, "http://mmsc.example/msg?id=1");

    let msg = decode(&pdu).unwrap();
    assert_eq!(msg.message_type, msg_type::NOTIFICATION_IND);
    assert_eq!(msg.transaction_id.as_deref(), Some("TID123"));
    assert_eq!(msg.sender().as_deref(), Some("+821012345678"));
    assert_eq!(msg.subject.as_deref(), Some("사진"));
    assert_eq!(msg.message_size, Some(45678));
    assert_eq!(msg.content_location.as_deref(), Some("http://mmsc.example/msg?id=1"));
}

#[test]
fn send_conf_status_is_not_masked() {
    // A carrier "Ok" is 0x80; masking the well-known bit off turned every success into a failure.
    let mut pdu = vec![field::MESSAGE_TYPE, msg_type::SEND_CONF, field::TRANSACTION_ID];
    write_text_string(&mut pdu, "T1");
    pdu.extend_from_slice(&[field::MMS_VERSION, VERSION_1_2, field::RESPONSE_STATUS, 0x80]);
    pdu.push(field::MESSAGE_ID);
    write_text_string(&mut pdu, "msg-42");

    let msg = decode(&pdu).unwrap();
    assert_eq!(msg.message_type, msg_type::SEND_CONF);
    assert_eq!(msg.response_status, Some(0x80));
    assert_eq!(msg.message_id.as_deref(), Some("msg-42"));
}

#[test]
fn send_req_is_decodable() {
    let mut text = MmsPart::new("text/plain", "hello".as_bytes().to_vec());
    text.content_id = Some("text0".into());
    let mut image = MmsPart::new("image/jpeg", vec![0xFF, 0xD8, 0xFF]);
    image.content_id = Some("img0".into());
    image.params.push(("name".into(), "p.jpg".into()));
    let parts = vec![text, image];

    let to = vec!["+821012345678".to_string()];
    let pdu = encode_send_req(&SendReq {
        transaction_id: "T1",
        from: None,
        to: &to,
        subject: Some("제목"),
        parts: &parts,
        delivery_report: false,
        read_report: false,
    });

    let decoded = decode(&pdu).unwrap();
    assert_eq!(decoded.message_type, msg_type::SEND_REQ);
    assert_eq!(decoded.subject.as_deref(), Some("제목"));
    assert_eq!(decoded.to, vec!["+821012345678/TYPE=PLMN".to_string()]);
    assert_eq!(decoded.parts.len(), 2);
    assert_eq!(decoded.parts[0].content_type, "text/plain");
    assert_eq!(decoded.parts[0].text().as_deref(), Some("hello"));
    assert_eq!(decoded.parts[1].content_type, "image/jpeg");
    assert_eq!(decoded.parts[1].data, vec![0xFF, 0xD8, 0xFF]);
}

#[test]
fn a_part_with_brackets_in_its_name_arrives() {
    let mut odd = MmsPart::new("IMAGE/jpeg", vec![1, 2, 3]);
    odd.content_id = Some("<img>>".into());
    let mut inner = MmsPart::new("text/plain", b"x".to_vec());
    inner.content_id = Some("a<b>c".into());
    let parts = vec![odd, inner];
    let to = vec!["1".to_string()];
    let pdu = encode_send_req(&SendReq {
        transaction_id: "T",
        from: None,
        to: &to,
        subject: Some(""),
        parts: &parts,
        delivery_report: false,
        read_report: false,
    });
    let msg = decode(&pdu).unwrap();
    assert_eq!(msg.subject, None);
    assert_eq!(msg.parts[0].content_type, "image/jpeg");
    assert_eq!(msg.parts[0].data, vec![1, 2, 3]);
    assert_eq!(msg.parts[0].content_id.as_deref(), Some("img"));
    assert_eq!(msg.parts[1].content_id.as_deref(), Some("a<b>c"));
}

#[test]
fn answers_to_the_network_are_decodable() {
    let pdu = encode_notify_resp_ind("T9", 0x83, false);
    let msg = decode(&pdu).unwrap();
    assert_eq!(msg.message_type, msg_type::NOTIFYRESP_IND);
    assert_eq!(msg.transaction_id.as_deref(), Some("T9"));
    assert_eq!(msg.version, Some(VERSION_1_2));
    let pdu = encode_acknowledge_ind("T9", true);
    let msg = decode(&pdu).unwrap();
    assert_eq!(msg.message_type, msg_type::ACKNOWLEDGE_IND);
    assert_eq!(msg.transaction_id.as_deref(), Some("T9"));
}

#[test]
fn bodies_are_parted_into_text_and_attachments() {
    assert_eq!(format_address("+8210"), "+8210/TYPE=PLMN");
    assert_eq!(format_address("a@b.c"), "a@b.c");
    let parts = vec![
        MmsPart::new("text/plain", b"one".to_vec()),
        MmsPart::new("image/jpeg", vec![1]),
        MmsPart::new("text/plain", b"two".to_vec()),
    ];
    let smil = build_smil(&parts);
    assert!(smil.starts_with("<smil>"));
    let to = vec!["1".to_string()];
    let pdu = encode_send_req(&SendReq {
        transaction_id: "T",
        from: Some("+8211"),
        to: &to,
        subject: None,
        parts: &parts,
        delivery_report: true,
        read_report: true,
    });
    let msg = decode(&pdu).unwrap();
    assert_eq!(msg.from.as_deref(), Some("+8211/TYPE=PLMN"));
    assert_eq!(msg.body_text().as_deref(), Some("one\ntwo"));
    assert_eq!(msg.attachments().len(), 1);
    assert_eq!(msg.attachments()[0].content_type, "image/jpeg");
    assert_eq!(decode(&[0x84, 0x1F]).err(), Some(PduError::MalformedContentType));
}

#[test]
fn pushes_are_recognised() {
    let mut push = vec![0x2A, 0x06, 0x01, 0x80 | 0x3E];
    push.extend_from_slice(&[field::MESSAGE_TYPE, msg_type::NOTIFICATION_IND]);
    assert!(is_wap_push(&push));
    let p = parse_wap_push(&push).unwrap();
    assert_eq!(p.transaction_id, 0x2A);
    assert_eq!(p.content_type, "application/vnd.wap.mms-message");
    assert!(is_mms_push(&p));
    assert_eq!(p.body, vec![field::MESSAGE_TYPE, msg_type::NOTIFICATION_IND]);
    assert_eq!(parse_wap_push(&[0x2A, 0x05, 0x00]).err(), Some(PushError::NotAPush));
    assert_eq!(parse_wap_push(&[0x2A, 0x06, 0x09, 0x80]).err(), Some(PushError::HeadersTooLong));
    assert_eq!(parse_wap_push(&[0x2A, 0x06, 0x00, 0x00]).err(), Some(PushError::NoContentType));
    assert_eq!(
        parse_wap_push(&[0x2A, 0x06, 0x80, 0x80]).err(),
        Some(PushError::BadHeadersLength)
    );
    assert!(!is_wap_push(b""));
}

// ------------------------------------------------------------------ names

fn name(labels: &[&str]) -> Vec<u8> {
    let mut v = Vec::new();
    for l in labels {
        v.push(l.len() as u8);
        v.extend_from_slice(l.as_bytes());
    }
    v.push(0);
    v
}

#[test]
fn query_round_trip() {
    let q = build_query(0x1234, "mmsc.ktfwing.com", TYPE_A).unwrap();
    assert_eq!(&q[0..2], &[0x12, 0x34]);
    assert_eq!(&q[4..6], &[0, 1]);
    assert!(q.windows(5).any(|w| w == b"\x04mmsc"));
    assert_eq!(&q[q.len() - 4..], &[0, 1, 0, 1]);
    assert!(build_query(1, "", TYPE_A).is_err());
}

/// A response shaped like the one KT actually returns: CNAME then A.
#[test]
fn parses_cname_then_a() {
    let mut msg = Vec::new();
    msg.extend_from_slice(&0xBEEFu16.to_be_bytes());
    msg.extend_from_slice(&0x8180u16.to_be_bytes());
    msg.extend_from_slice(&1u16.to_be_bytes()); // qdcount
    msg.extend_from_slice(&2u16.to_be_bytes()); // ancount
    msg.extend_from_slice(&[0, 0, 0, 0]);
    msg.extend_from_slice(&name(&["mmsc", "ktfwing", "com"]));
    msg.extend_from_slice(&[0, 1, 0, 1]);

    // CNAME record
    msg.extend_from_slice(&[0xC0, 0x0C]);
    msg.extend_from_slice(&TYPE_CNAME.to_be_bytes());
    msg.extend_from_slice(&[0, 1, 0, 0, 0, 60]);
    let target = name(&["mms", "g", "mmsc", "ktfwing", "com"]);
    msg.extend_from_slice(&(target.len() as u16).to_be_bytes());
    msg.extend_from_slice(&target);

    // A record
    msg.extend_from_slice(&[0xC0, 0x0C]);
    msg.extend_from_slice(&TYPE_A.to_be_bytes());
    msg.extend_from_slice(&[0, 1, 0, 0, 0, 60, 0, 4]);
    msg.extend_from_slice(&[172, 31, 36, 98]);

    let a = parse_answer(&msg, 0xBEEF, TYPE_A).unwrap();
    assert_eq!(a.addrs, vec![parse_ip("172.31.36.98").unwrap()]);
    assert_eq!(a.cname.as_deref(), Some("mms.g.mmsc.ktfwing.com"));
}

#[test]
fn rejects_wrong_id_and_nxdomain() {
    let mut msg = vec![0x00, 0x01, 0x81, 0x80, 0, 1, 0, 0, 0, 0, 0, 0];
    msg.extend_from_slice(&name(&["a", "b"]));
    msg.extend_from_slice(&[0, 1, 0, 1]);
    assert!(parse_answer(&msg, 0x9999, TYPE_A).is_err());
    assert!(parse_answer(&msg, 0x0001, TYPE_A).unwrap().addrs.is_empty());

    msg[3] = 0x83; // NXDOMAIN
    assert!(parse_answer(&msg, 0x0001, TYPE_A).is_err());
}

/// Only a datagram that echoes our own question counts as the answer.
#[test]
fn only_our_question_is_accepted() {
    let mut msg = vec![0x12, 0x34, 0x81, 0x80, 0, 1, 0, 0, 0, 0, 0, 0];
    msg.extend_from_slice(&name(&["mmsc", "example"]));
    msg.extend_from_slice(&[0, 1, 0, 1]); // A IN

    assert_eq!(classify(&msg, 0x1234, "mmsc.example", TYPE_A), Reply::Ours);
    assert_eq!(classify(&msg, 0x1234, "MMSC.Example.", TYPE_A), Reply::Ours);
    // Right id, wrong name: a forged answer for something else.
    assert_eq!(classify(&msg, 0x1234, "other.example", TYPE_A), Reply::NotOurs);
    // Right name, wrong id or query type.
    assert_eq!(classify(&msg, 0x9999, "mmsc.example", TYPE_A), Reply::NotOurs);
    assert_eq!(classify(&msg, 0x1234, "mmsc.example", TYPE_AAAA), Reply::NotOurs);
    // A query echoed back at us rather than a response.
    let mut query = msg.clone();
    query[2] = 0x01;
    assert_eq!(classify(&query, 0x1234, "mmsc.example", TYPE_A), Reply::NotOurs);
    assert_eq!(classify(b"short", 0x1234, "mmsc.example", TYPE_A), Reply::NotOurs);
}

/// A resolver that refuses the query answers without echoing it; waiting out the timeout for that
/// would only delay the fallback.
#[test]
fn a_refusal_is_terminal_rather_than_ignored() {
    // REFUSED, no question section.
    let refused = vec![0x12, 0x34, 0x81, 0x85, 0, 0, 0, 0, 0, 0, 0, 0];
    assert_eq!(classify(&refused, 0x1234, "mmsc.example", TYPE_A), Reply::Rejected(5));
    // Same shape but for a transaction that is not ours: still ignored.
    assert_eq!(classify(&refused, 0x9999, "mmsc.example", TYPE_A), Reply::NotOurs);
}

#[test]
fn a_compression_loop_ends() {
    let mut msg = vec![0x00, 0x01, 0x81, 0x80, 0, 0, 0, 1, 0, 0, 0, 0];
    msg.extend_from_slice(&[0xC0, 0x0C, 0, 5, 0, 1, 0, 0, 0, 60, 0, 2, 0xC0, 0x0C]);
    // The name that loops is left out; what else was answered counts.
    let a = parse_answer(&msg, 1, TYPE_A).unwrap();
    assert_eq!(a.cname, None);
    assert!(a.addrs.is_empty());
    assert_eq!(parse_answer(&[0, 1], 1, TYPE_A).err(), Some(DnsError::ShortResponse));
}

#[test]
fn a_lookup_asks_each_server_and_ends() {
    let resolver = Resolver {
        servers: vec![parse_ip("10.0.0.53").unwrap()],
        interface: None,
        local_ip: None,
        timeout_ms: 1000,
    };
    assert!(resolver.is_usable());
    let (mut lookup, mut action) = resolver.lookup("mmsc.example", 80);
    let mut asked = 0;
    while let LookupAction::Ask { server, host, .. } = &action {
        assert_eq!(ip_string(*server), "10.0.0.53");
        assert_eq!(host, "mmsc.example");
        asked += 1;
        assert!(asked < 10);
        action = lookup.on_reply(None);
    }
    assert!(matches!(action, LookupAction::Failed(_)));

    let (mut lookup, _) = resolver.lookup("mmsc.example", 80);
    let answer = parse_answer(
        &{
            let mut m = vec![0, 1, 0x81, 0x80, 0, 0, 0, 1, 0, 0, 0, 0];
            m.extend_from_slice(&[0, 0, 1, 0, 1, 0, 0, 0, 60, 0, 4, 10, 0, 0, 9]);
            m
        },
        1,
        TYPE_A,
    )
    .unwrap();
    match lookup.on_reply(Some(answer)) {
        LookupAction::Found(addrs) => assert_eq!(
            addrs,
            vec![SocketAddr { ip: parse_ip("10.0.0.9").unwrap(), port: 80, scope: 0 }]
        ),
        other => panic!("{other:?}"),
    }
}
