use modem2sip::config::Config;
use modem2sip::db::{announced_again, ext_for, now_iso, sanitize_name, Again, Direction};
use modem2sip::http_api::{
    attachment_headers, authorized, error_of, handle, list_params, percent_decode,
    request_deadline, respond_bytes_with, route, sanitize_media_type, status_of, Endpoint,
    Handling, HttpRequest, Outcome, RequestError, RequestReader,
};
use modem2sip::mm::{BearerNet, SmsInfo};
use modem2sip::mms::http::{
    build_head, dechunk, ipv4_first, parse_url, plan, request_timeout, resolve, HostLookup,
    HttpError, HttpOptions, HttpResponse, ResponseReader,
};
use modem2sip::mms::manager::{
    acknowledgement, build_parts, check_request, confirm, handle_push, http_options,
    load_attachment, needs_bearer, new_transaction, notify_resp, parts_to_store, plan_push,
    retrieval_url, retrieve, submit_with, unix_to_iso, unix_to_iso_at, Load, PushPlan, RetrieveError,
    SendAttachment, SendError, SendRequest, Stored,
};
use modem2sip::mms::pdu::{
    decode, encode_send_req, field, msg_type, MmsMessage, MmsPart, SendReq, VERSION_1_2,
};
use modem2sip::mms::wsp::{write_long_int, write_text_string};
use modem2sip::net::{parse_ip, parse_socket};
use modem2sip::sip::auth::constant_time_eq;

// ------------------------------------------------------------------ the local API

/// The Content-Type of an MMS part is decoded from the PDU as a free-form string, so it must never
/// be able to close the header and write a response body of the sender's choosing.
#[test]
fn a_media_type_cannot_break_out_of_the_header() {
    assert_eq!(
        sanitize_media_type("image/jpeg\r\nX-Evil: 1\r\n\r\n<script>"),
        "image/jpeg"
    );
    assert_eq!(sanitize_media_type("text/plain\nSet-Cookie: a=b"), "text/plain");
    for out in [
        sanitize_media_type(""),
        sanitize_media_type("\r\n"),
        sanitize_media_type("notamediatype"),
        sanitize_media_type("\u{202e}evil"),
    ] {
        assert_eq!(out, "application/octet-stream");
    }
}

/// Ordinary types have to survive intact, parameters included.
#[test]
fn a_normal_media_type_is_left_alone() {
    for ct in [
        "image/jpeg",
        "text/plain; charset=utf-8",
        "application/vnd.wap.mms-message",
        "application/json; charset=utf-8",
    ] {
        assert_eq!(sanitize_media_type(ct), ct);
    }
    // Absurdly long values are cut rather than echoed in full.
    assert!(sanitize_media_type(&format!("image/{}", "a".repeat(500))).len() <= 128);
}

#[test]
fn token_comparison_needs_an_exact_match() {
    assert!(constant_time_eq("s3cret", "s3cret"));
    assert!(!constant_time_eq("s3cret", "s3cre"));
    assert!(!constant_time_eq("", "s3cret"));
    assert!(!constant_time_eq("s3cretX", "s3cret"));
}

fn read(raw: &str) -> HttpRequest {
    let mut reader = RequestReader::new();
    for chunk in raw.as_bytes().chunks(7) {
        reader = reader.push(chunk).unwrap();
    }
    assert!(reader.complete());
    reader.finish().unwrap()
}

#[test]
fn requests_arrive_in_pieces() {
    let req = read(
        "POST /messages/7/retrieve?x=a%20b+c HTTP/1.1\r\nHost: h\r\nContent-Length: 3\r\n\r\nabc",
    );
    assert_eq!(req.method, "POST");
    assert_eq!(req.path, "/messages/7/retrieve");
    assert_eq!(req.body, b"abc");
    assert_eq!(req.header("HOST"), Some("h"));
    assert_eq!(req.query_param("x").as_deref(), Some("a b+c"));
    assert_eq!(req.query_param("y"), None);
    assert_eq!(route(&req), Endpoint::Retrieve(7));
    assert_eq!(percent_decode("a%20b"), "a b");
    assert_eq!(percent_decode("%ff%"), "\u{fffd}%");
    let mut reader = RequestReader::new();
    let mut failed = None;
    for _ in 0..100 {
        match reader.push(&[b'a'; 1024]) {
            Ok(r) => reader = r,
            Err(e) => {
                failed = Some(e);
                break;
            }
        }
    }
    assert_eq!(failed, Some(RequestError::HeadTooLarge));
    let huge = "POST /sms HTTP/1.1\r\nContent-Length: 99999999999\r\n\r\n";
    assert_eq!(
        RequestReader::new().push(huge.as_bytes()).err(),
        Some(RequestError::BodyTooLarge)
    );
}

#[test]
fn endpoints_are_found_by_method_and_path() {
    let get = |path: &str| route(&read(&format!("GET {path} HTTP/1.1\r\n\r\n")));
    assert_eq!(get("/health"), Endpoint::Health);
    assert_eq!(get("/cards"), Endpoint::Cards);
    assert_eq!(get("/messages"), Endpoint::Messages);
    assert_eq!(get("/messages/12"), Endpoint::Message(12));
    assert_eq!(
        get("/messages/12/attachments/3"),
        Endpoint::Attachment { message: 12, index: 3 }
    );
    assert_eq!(get("/messages/x"), Endpoint::BadId);
    assert_eq!(get("/nothing"), Endpoint::NoSuchEndpoint);
    let post = |path: &str| route(&read(&format!("POST {path} HTTP/1.1\r\n\r\n")));
    assert_eq!(post("/sms"), Endpoint::SendSms);
    assert_eq!(post("/mms"), Endpoint::SendMms);
    assert_eq!(list_params(&read("GET /messages?limit=5&before=9 HTTP/1.1\r\n\r\n")), (5, Some(9)));
    assert_eq!(list_params(&read("GET /messages HTTP/1.1\r\n\r\n")).1, None);
}

#[test]
fn a_token_is_asked_for_where_one_is_set() {
    let open = read("GET /health HTTP/1.1\r\n\r\n");
    assert!(authorized(&open, None));
    assert!(!authorized(&open, Some("s3cret")));
    let with = read("GET /health HTTP/1.1\r\nAuthorization: Bearer s3cret\r\n\r\n");
    assert!(authorized(&with, Some("s3cret")));
    assert!(!authorized(&with, Some("other")));
}

#[test]
fn requests_are_refused_or_worked_for() {
    let open = read("GET /nothing HTTP/1.1\r\n\r\n");
    assert!(matches!(
        handle(&open, Some("s3cret")),
        Handling::Refuse { status: 401, error: "unauthorized" }
    ));
    assert!(matches!(
        handle(&open, None),
        Handling::Refuse { status: 404, error: "no such endpoint" }
    ));
    assert!(matches!(
        handle(&read("GET /messages/x HTTP/1.1\r\n\r\n"), None),
        Handling::Refuse { status: 400, error: "bad id" }
    ));
    assert!(matches!(
        handle(&read("GET /messages?limit=900 HTTP/1.1\r\n\r\n"), None),
        Handling::Messages { limit: 500, before: None }
    ));
    let sms = handle(&read("POST /sms HTTP/1.1\r\n\r\n"), None);
    assert_eq!(status_of(&sms, Outcome::Done), 202);
    assert_eq!(status_of(&sms, Outcome::BadBody), 400);
    assert_eq!(status_of(&sms, Outcome::NoModem), 503);
    assert_eq!(status_of(&sms, Outcome::Failed), 500);
    let retrieve = handle(&read("POST /messages/7/retrieve HTTP/1.1\r\n\r\n"), None);
    assert_eq!(status_of(&retrieve, Outcome::Done), 200);
    assert_eq!(status_of(&retrieve, Outcome::Failed), 502);
    assert_eq!(status_of(&retrieve, Outcome::NotFound), 404);
    assert_eq!(error_of(Outcome::Unreadable), Some("attachment unreadable"));
    assert_eq!(error_of(Outcome::DatabaseError), Some("database error"));
    assert_eq!(error_of(Outcome::Done), None);
}

#[test]
fn responses_are_headed() {
    let head = respond_bytes_with(200, "text/plain", "", 5);
    assert!(head.starts_with("HTTP/1.1 200 OK\r\n"));
    assert!(head.contains("Content-Length: 5\r\n"));
    assert!(head.ends_with("\r\n\r\n"));
    assert!(attachment_headers().contains("nosniff"));
    assert!(request_deadline(30) > 30);
}

// ------------------------------------------------------------------ storage

#[test]
fn file_names_stay_in_their_directory() {
    assert_eq!(ext_for("image/jpeg; name=x"), ".jpg");
    assert_eq!(ext_for("x/y"), ".bin");
    let name = sanitize_name(Some("../../etc/passwd"), 3, "text/plain");
    assert!(!name.contains('/'));
    assert!(name.contains("passwd"));
    assert!(sanitize_name(Some("사진.jpg"), 0, "image/jpeg").contains("사진.jpg"));
    assert!(!sanitize_name(Some("a\u{2028}b"), 0, "image/jpeg").contains('\u{2028}'));
    assert!(sanitize_name(None, 3, "image/png").ends_with(".png"));
    assert_eq!(announced_again("received"), Again::Ignore);
    assert!(now_iso().len() >= 25);
    assert!(unix_to_iso(1_700_000_000).starts_with("2023-11-1"));
    assert!(unix_to_iso(0).len() >= 25);
    assert_eq!(unix_to_iso(9_000_000_000_000), "");
    assert_eq!(unix_to_iso_at(1_700_000_000, 0), "2023-11-14T22:13:20+00:00");
    assert_eq!(unix_to_iso_at(1_700_000_000, 32_400), "2023-11-15T07:13:20+09:00");
    assert_eq!(unix_to_iso_at(1_700_000_000, -12_600), "2023-11-14T18:43:20-03:30");
    assert_eq!(unix_to_iso_at(9_000_000_000_000, 32_400), "");
}

// ------------------------------------------------------------------ HTTP to the carrier

fn options(dns: Vec<&str>) -> HttpOptions {
    HttpOptions {
        proxy: None,
        interface: None,
        local_ip: None,
        timeout_secs: 30,
        user_agent: "ua".to_string(),
        ua_profile: Some("prof".to_string()),
        max_size: 1000,
        dns_servers: dns.iter().map(|d| parse_ip(d).unwrap()).collect(),
    }
}

#[test]
fn urls_are_taken_apart() {
    let u = parse_url("http://mmsc.example:9082/a?b").unwrap();
    assert_eq!((&*u.host, u.port, &*u.path), ("mmsc.example", 9082, "/a?b"));
    let u = parse_url("http://mmsc.example").unwrap();
    assert_eq!((u.port, &*u.path), (80, "/"));
    assert_eq!(parse_url("https://mmsc.example").err(), Some(HttpError::Https));
    assert_eq!(parse_url("ftp://mmsc.example").err(), Some(HttpError::UnsupportedUrl));
    let p = plan("http://mmsc.example:9082/a", None).unwrap();
    assert_eq!((&*p.host, p.port, &*p.target), ("mmsc.example", 9082, "/a"));
    assert_eq!(p.host_header, "mmsc.example:9082");
    let p = plan("http://mmsc.example/a", Some("10.0.0.1:8080")).unwrap();
    assert_eq!((&*p.host, p.port), ("10.0.0.1", 8080));
    assert_eq!(p.target, "http://mmsc.example/a");
    assert_eq!(plan("http://h/", Some("10.0.0.1:x")).err(), Some(HttpError::BadProxyPort));
    let head = build_head("GET", &p, &options(vec![]), None, 0);
    assert!(head.starts_with("GET http://mmsc.example/a HTTP/1.1\r\n"));
    assert!(head.contains("User-Agent: ua\r\n"));
    assert!(head.ends_with("\r\n\r\n"));
    assert!(request_timeout(&options(vec![])) >= 30);
}

#[test]
fn names_are_resolved_by_the_carrier() {
    assert_eq!(
        resolve("10.0.0.1", 80, &options(vec!["10.9.9.9"])),
        HostLookup::Address(parse_socket("10.0.0.1:80").unwrap())
    );
    assert_eq!(resolve("mmsc", 80, &options(vec!["10.9.9.9"])), HostLookup::CarrierFirst);
    assert_eq!(resolve("mmsc", 80, &options(vec![])), HostLookup::System);
    let addrs = vec![
        parse_socket("[::1]:80").unwrap(),
        parse_socket("10.0.0.1:80").unwrap(),
        parse_socket("[::2]:80").unwrap(),
    ];
    assert_eq!(ipv4_first(&addrs), vec![addrs[1], addrs[0], addrs[2]]);
}

fn answered(raw: &[u8]) -> Result<HttpResponse, HttpError> {
    let mut reader = ResponseReader::new();
    for chunk in raw.chunks(5) {
        reader = reader.push(chunk, 1000)?;
    }
    reader.finish()
}

#[test]
fn responses_end_by_length_or_chunks() {
    let r = answered(b"HTTP/1.1 200 OK\r\nContent-Type: x/y\r\nContent-Length: 3\r\n\r\nabc").unwrap();
    assert_eq!((r.status, &*r.body), (200, &b"abc"[..]));
    assert_eq!(r.content_type(), Some("x/y"));
    let r = answered(
        b"HTTP/1.1 200 OK\r\nTransfer-Encoding: chunked\r\n\r\n3\r\nabc\r\n2;x\r\nde\r\n0\r\n\r\n",
    )
    .unwrap();
    assert_eq!(r.body, b"abcde");
    assert_eq!(dechunk(b"3\r\nabc\r\n0\r\n\r\n"), b"abc");
    assert_eq!(dechunk(b"3\r\nab"), b"ab");
    assert_eq!(answered(b"nonsense\r\n\r\n").err(), Some(HttpError::BadStatusLine));
    assert_eq!(answered(b"HTTP/1.1 200").err(), Some(HttpError::ClosedEarly));
    let big = [b"HTTP/1.1 200 OK\r\n\r\n".to_vec(), vec![b'x'; 2000]].concat();
    assert_eq!(answered(&big).err(), Some(HttpError::BodyTooLarge));
}

// ------------------------------------------------------------------ the MMS exchange

fn notification(size: u64) -> Vec<u8> {
    let mut pdu = vec![field::MESSAGE_TYPE, msg_type::NOTIFICATION_IND, field::TRANSACTION_ID];
    write_text_string(&mut pdu, "TID123");
    pdu.extend_from_slice(&[field::MMS_VERSION, VERSION_1_2, field::MESSAGE_SIZE]);
    write_long_int(&mut pdu, size);
    pdu.push(field::CONTENT_LOCATION);
    write_text_string(&mut pdu, "http://mmsc.example/msg?id=1");
    pdu
}

fn push_sms(data: Vec<u8>) -> SmsInfo {
    SmsInfo {
        path: "/SMS/1".to_string(),
        state: 3,
        pdu_type: 1,
        number: "+8210".to_string(),
        text: String::new(),
        data,
        timestamp: None,
        smsc: None,
        class: -1,
    }
}

fn wanted(size: u64) -> MmsMessage {
    decode(&notification(size)).unwrap()
}

#[test]
fn a_notification_is_stored_and_fetched() {
    let mut cfg = Config::default();
    cfg.mms.enabled = true;
    cfg.mms.mmsc = Some("http://mmsc.example".to_string());
    cfg.modem.country_code = Some("82".to_string());
    let mut data = vec![0x2A, 0x06, 0x01, 0xBE];
    data.extend_from_slice(&notification(1000));
    let (msg, record) = handle_push(&cfg, &push_sms(data)).unwrap().unwrap();
    assert_eq!(record.kind, "mms");
    assert_eq!(record.peer, "010");
    assert_eq!(record.direction, Direction::Incoming);
    assert_eq!(record.external_id.as_deref(), Some("TID123"));
    assert!(matches!(plan_push(&cfg.mms, &msg, Stored::New), PushPlan::Retrieve));
    assert!(matches!(
        plan_push(&cfg.mms, &msg, Stored::Known(Again::Ignore)),
        PushPlan::Ignore
    ));
    assert_eq!(retrieval_url(&cfg.mms, &msg).unwrap(), "http://mmsc.example/msg?id=1");
    let (url, pdu) = notify_resp(&cfg.mms, &msg, 0x81).unwrap();
    assert_eq!(url, "http://mmsc.example");
    assert_eq!(decode(&pdu).unwrap().transaction_id.as_deref(), Some("TID123"));
    cfg.mms.max_size = 10;
    assert_eq!(
        retrieval_url(&cfg.mms, &wanted(1000)),
        Err(RetrieveError::TooLarge { size: 1000 })
    );
    cfg.mms.enabled = false;
    assert!(matches!(plan_push(&cfg.mms, &msg, Stored::New), PushPlan::Disabled));
    assert!(handle_push(&cfg, &push_sms(vec![1, 2, 3])).is_err());
}

fn http(status: u16, body: Vec<u8>) -> HttpResponse {
    HttpResponse { status, headers: vec![], body }
}

#[test]
fn a_retrieved_message_has_to_be_one() {
    assert!(matches!(retrieve(&http(404, vec![])), Err(RetrieveError::Http { status: 404 })));
    let mut conf = vec![field::MESSAGE_TYPE, msg_type::RETRIEVE_CONF, field::RETRIEVE_STATUS, 0xE0];
    assert!(retrieve(&http(200, conf.clone())).is_err());
    conf.truncate(2);
    conf[1] = msg_type::SEND_CONF;
    assert!(matches!(
        retrieve(&http(200, conf)),
        Err(RetrieveError::NoContent { message_type: msg_type::SEND_CONF, length: 2, .. })
    ));
    assert_eq!(retrieve(&http(200, vec![0x84, 0x1F])).err(), Some(RetrieveError::Undecodable));
    let parts = vec![MmsPart::new("text/plain", b"hi".to_vec())];
    let to = vec!["1".to_string()];
    let mut pdu = encode_send_req(&SendReq {
        transaction_id: "T",
        from: None,
        to: &to,
        subject: None,
        parts: &parts,
        delivery_report: false,
        read_report: false,
    });
    pdu[1] = msg_type::RETRIEVE_CONF;
    let msg = retrieve(&http(200, pdu)).unwrap();
    assert_eq!(msg.body_text().as_deref(), Some("hi"));
    let mut cfg = Config::default();
    cfg.mms.mmsc = Some("http://mmsc.example".to_string());
    let (_, ack) = acknowledgement(&cfg.mms, &wanted(1), &msg).unwrap();
    assert_eq!(decode(&ack).unwrap().message_type, msg_type::ACKNOWLEDGE_IND);
    assert_eq!(parts_to_store(&msg.parts).len(), 1);
}

fn send(to: &[&str], text: Option<&str>) -> SendRequest {
    SendRequest {
        to: to.iter().map(|t| t.to_string()).collect(),
        subject: None,
        text: text.map(str::to_string),
        attachments: vec![],
    }
}

fn attachment(base64: Option<&str>, path: Option<&str>) -> SendAttachment {
    SendAttachment {
        content_type: "image/jpeg".to_string(),
        name: Some("p.jpg".to_string()),
        data_base64: base64.map(str::to_string),
        path: path.map(str::to_string),
    }
}

#[test]
fn a_submission_is_checked_and_built() {
    let mut cfg = Config::default();
    assert_eq!(check_request(&cfg.mms, &send(&["1"], Some("x"))), Err(SendError::Disabled));
    cfg.mms.enabled = true;
    assert_eq!(check_request(&cfg.mms, &send(&["1"], Some("x"))), Err(SendError::NoMmsc));
    cfg.mms.mmsc = Some("http://mmsc.example".to_string());
    assert_eq!(check_request(&cfg.mms, &send(&[], Some("x"))), Err(SendError::NoRecipient));
    let req = send(&["+8210"], Some("hello"));
    assert_eq!(check_request(&cfg.mms, &req), Ok("http://mmsc.example".to_string()));
    assert_eq!(
        build_parts(&cfg.mms, &send(&["1"], None), vec![]).err(),
        Some(SendError::NoContent)
    );
    let parts = build_parts(&cfg.mms, &req, vec![]).unwrap();
    let (pdu, record) = submit_with(&req, &parts, "T77");
    let back = decode(&pdu).unwrap();
    assert_eq!(back.transaction_id.as_deref(), Some("T77"));
    assert_eq!(back.to, vec!["+8210/TYPE=PLMN".to_string()]);
    assert_eq!(back.body_text().as_deref(), Some("hello"));
    assert_eq!(record.direction, Direction::Outgoing);
    assert_ne!(new_transaction(), new_transaction());
}

#[test]
fn attachments_are_inline_or_on_disk() {
    match load_attachment(&attachment(Some(" aGVsbG8= "), None)) {
        Load::Bytes(b) => assert_eq!(b, b"hello"),
        other => panic!("{other:?}"),
    }
    assert!(matches!(load_attachment(&attachment(Some("aGVsbG8"), None)), Load::BadBase64));
    assert!(matches!(load_attachment(&attachment(Some("aGVsbG9="), None)), Load::BadBase64));
    assert!(matches!(load_attachment(&attachment(Some("!!!!"), None)), Load::BadBase64));
    match load_attachment(&attachment(Some("////"), None)) {
        Load::Bytes(b) => assert_eq!(b, vec![0xff, 0xff, 0xff]),
        other => panic!("{other:?}"),
    }
    assert!(matches!(load_attachment(&attachment(None, Some("/x"))), Load::File(p) if p == "/x"));
    assert!(matches!(load_attachment(&attachment(None, None)), Load::Missing));
}

#[test]
fn a_submission_is_confirmed() {
    let ok = vec![field::MESSAGE_TYPE, msg_type::SEND_CONF, field::RESPONSE_STATUS, 0x80];
    assert_eq!(confirm(&http(200, ok)), Ok(()));
    let bad = vec![field::MESSAGE_TYPE, msg_type::SEND_CONF, field::RESPONSE_STATUS, 0xE1];
    assert!(matches!(confirm(&http(200, bad)), Err(SendError::Rejected { .. })));
    assert_eq!(confirm(&http(500, vec![])), Err(SendError::Http { status: 500 }));
}

#[test]
fn the_bearer_carries_the_traffic() {
    let mut cfg = Config::default();
    assert!(needs_bearer(&cfg.mms));
    let bearer = BearerNet {
        interface: "wwan0".to_string(),
        address: parse_ip("10.1.2.3"),
        dns: vec![parse_ip("10.9.9.9").unwrap()],
    };
    let o = http_options(&cfg.mms, Some(&bearer));
    assert_eq!(o.interface.as_deref(), Some("wwan0"));
    assert_eq!(o.local_ip, parse_ip("10.1.2.3"));
    assert_eq!(o.dns_servers, vec![parse_ip("10.9.9.9").unwrap()]);
    cfg.mms.interface = Some("eth9".to_string());
    let o = http_options(&cfg.mms, Some(&bearer));
    assert_eq!(o.interface.as_deref(), Some("eth9"));
}
