use modem2sip::audio::alsa_io::AudioRings;
use modem2sip::audio::codec::Law;
use modem2sip::config::{Audio, ModemMatch};
use modem2sip::media::{
    can_send_to, dtmf_char, law_of, next_frame, next_packet, prefill, send_dtmf_inband,
    session_ms, take_datagram, DigitWatch, PortRange, Received, RtpReceiver, RtpSender,
};
use modem2sip::mm::proxies::{call, state};
use modem2sip::mm::watcher::{
    activate, eq_ci, find_order, modem_matches, path_index, ready_environment, resolve_alsa,
    supervise, Activation, CardChoice, Heard, Inspected, Loss, Reconnect, Stream, Watch,
};
use modem2sip::mm::{
    data_bearer, dtmf_digits, read_info, BearerReport, ModemInfo, ModemReport, NetworkReport,
    SimReport,
};
use modem2sip::net::{parse_ip, parse_socket, SocketAddr};
use modem2sip::sip::sdp::Codec;

fn addr(s: &str) -> SocketAddr {
    parse_socket(s).unwrap()
}

#[test]
fn every_port_of_the_range_is_tried() {
    let range = PortRange::new(16384, 16391).unwrap();
    let start = range.start();
    assert_eq!(start % 2, 0);
    let mut seen = vec![start];
    let mut port = range.next(start);
    while port != start {
        assert!((16384..=16391).contains(&port));
        assert_eq!(port % 2, 0);
        seen.push(port);
        port = range.next(port);
    }
    assert_eq!(seen.len(), 4);
    assert_eq!(range.slots(), 4);
    assert!(PortRange::new(16391, 16384).is_none());
}

#[test]
fn packets_are_written_and_read() {
    let mut tx = RtpSender::new(0, 20);
    let p1 = tx.packet(&[1, 2, 3]);
    let p2 = tx.packet(&[4, 5, 6]);
    assert_eq!(p1.len(), 15);
    assert_eq!(p1[0], 0x80);
    assert_eq!(p1[1], 0x80, "the first packet is marked");
    assert_eq!(p2[1], 0x00);
    let seq = |p: &[u8]| u16::from_be_bytes([p[2], p[3]]);
    let ts = |p: &[u8]| u32::from_be_bytes([p[4], p[5], p[6], p[7]]);
    assert_eq!(seq(&p2), seq(&p1).wrapping_add(1));
    assert_eq!(ts(&p2), ts(&p1).wrapping_add(160));

    let mut rx = RtpReceiver::new(addr("10.0.0.5:4000"), 0, Some(101), true);
    assert_eq!(rx.on_datagram(&p1, addr("10.0.0.9:4000"), 5), Received::Nothing);
    assert_eq!(
        rx.on_datagram(&p1, addr("10.0.0.5:4002"), 10),
        Received::Audio(vec![1, 2, 3])
    );
    // Symmetric RTP latches onto the port, not onto another host.
    assert_eq!(rx.remote, addr("10.0.0.5:4002"));
    assert_eq!(rx.silence(110), 100);
    rx.reset_silence(110);
    assert_eq!(rx.silence(110), 0);
    rx.set_remote(addr("10.0.0.6:4000"));
    assert_eq!(rx.remote, addr("10.0.0.6:4000"));
    assert_eq!(session_ms(1234), 1234);
    assert!(!can_send_to(addr("0.0.0.0:4000")));
    assert!(!can_send_to(addr("10.0.0.1:0")));
    assert!(can_send_to(addr("10.0.0.1:4000")));
    assert_eq!(law_of(Codec::Pcma), Law::Alaw);
}

#[test]
fn a_telephone_event_is_reported_once() {
    let mut rx = RtpReceiver::new(addr("10.0.0.5:4000"), 0, Some(101), true);
    let event = |ts: u8| {
        vec![0x80, 101, 0, 1, 0, 0, 0, ts, 0, 0, 0, 1, 5, 0x80, 0, 160]
    };
    let src = addr("10.0.0.5:4000");
    assert_eq!(rx.on_datagram(&event(1), src, 0), Received::Digit('5'));
    assert_eq!(rx.on_datagram(&event(1), src, 1), Received::Nothing);
    assert_eq!(rx.on_datagram(&event(2), src, 2), Received::Digit('5'));
    assert_eq!(dtmf_char(10), Some('*'));
    assert_eq!(dtmf_char(11), Some('#'));
    assert_eq!(dtmf_char(16), None);
}

#[test]
fn a_heard_digit_is_reported_once() {
    let mut w = DigitWatch::new();
    let mut heard = vec![];
    for detected in [Some('5'), Some('5'), Some('5'), Some('5'), None, None, None, None, None] {
        if w.start_frame(false) {
            if let Some(d) = w.frame(detected) {
                heard.push(d);
            }
        }
    }
    assert_eq!(heard, vec!['5']);
    // While the gateway plays a digit itself, nothing is heard.
    let mut w = DigitWatch::new();
    assert!(!w.start_frame(true));
    for _ in 0..24 {
        assert!(!w.start_frame(false));
    }
    assert!(w.start_frame(false));
    // A single frame that the detector misses does not end a digit.
    let mut w = DigitWatch::new();
    let frames = [Some('7'), Some('7'), Some('7'), None, Some('7'), Some('7'), Some('7')];
    let reports: Vec<char> = frames.into_iter().filter_map(|d| w.frame(d)).collect();
    assert_eq!(reports, vec!['7']);
}

#[test]
fn what_one_side_sends_the_other_plays() {
    let mut card = AudioRings::new(60, 20);
    card.push_from_card(&[1000i16; 160]);
    let mut watch = DigitWatch::new();
    let (pcm, detect) = next_frame(&mut card, &mut watch, 160);
    assert_eq!(pcm, vec![1000i16; 160]);
    assert!(detect);
    assert!(card.to_network.is_empty());

    let mut sender = RtpSender::new(0, 20);
    let (seq, timestamp) = (sender.seq, sender.timestamp);
    assert_eq!(next_packet(&mut sender, Law::Ulaw, &pcm, addr("0.0.0.0:0")), None);
    let packet = next_packet(&mut sender, Law::Ulaw, &pcm, addr("192.0.2.1:4000")).unwrap();
    assert_eq!(packet.len(), 172);
    assert_eq!(sender.seq, seq.wrapping_add(2));
    assert_eq!(sender.timestamp, timestamp.wrapping_add(320));

    let peer = addr("192.0.2.9:5000");
    let mut receiver = RtpReceiver::new(peer, 0, Some(101), true);
    let mut speaker = AudioRings::new(60, 20);
    let stranger = addr("198.51.100.1:5000");
    assert_eq!(
        take_datagram(&mut receiver, &mut speaker, Law::Ulaw, &packet, stranger, 20),
        None
    );
    assert!(speaker.to_modem.is_empty());
    assert_eq!(take_datagram(&mut receiver, &mut speaker, Law::Ulaw, &packet, peer, 20), None);
    assert_eq!(speaker.to_modem.len(), 160);
    assert!((speaker.to_modem[0] - 1000).abs() < 40);
    let event = [0x80, 101, 0, 1, 0, 0, 0, 9, 0, 0, 0, 1, 11, 0, 0, 160];
    assert_eq!(
        take_datagram(&mut receiver, &mut speaker, Law::Ulaw, &event, peer, 40),
        Some('#')
    );
    assert_eq!(speaker.to_modem.len(), 160);
}

#[test]
fn tones_are_queued_with_their_gaps() {
    let mut rings = AudioRings::new(60, 20);
    let tones = vec![Some(vec![7i16; 100]), None, Some(vec![8i16; 100])];
    assert_eq!(send_dtmf_inband(&mut rings, &tones, 50), 2);
    assert_eq!(rings.tone.len(), 300);
    let mut rings = AudioRings::new(60, 20);
    prefill(&mut rings, 60);
    assert_eq!(rings.to_modem.len(), 480);
}

fn inspected() -> Inspected {
    Inspected {
        path: "/org/freedesktop/ModemManager1/Modem/3".to_string(),
        device: "/sys/devices/usb1/1-3".to_string(),
        device_id: "abc".to_string(),
        equipment_id: "867".to_string(),
        imei: "867".to_string(),
        primary_port: "cdc-wdm0".to_string(),
        sim: Some(("8982".to_string(), "45008".to_string())),
    }
}

#[test]
fn a_modem_is_selected_by_what_is_set() {
    let m = inspected();
    assert!(modem_matches(&ModemMatch::default(), &m));
    let by = |change: &dyn Fn(&mut ModemMatch)| {
        let mut sel = ModemMatch::default();
        change(&mut sel);
        modem_matches(&sel, &m)
    };
    assert!(by(&|s| s.imei = Some("867".into())));
    assert!(!by(&|s| s.imei = Some("868".into())));
    assert!(by(&|s| s.imsi = Some("45008".into())));
    assert!(by(&|s| s.index = Some(3)));
    assert!(!by(&|s| s.index = Some(4)));
    assert!(eq_ci("ABC", "abc"));
    assert_eq!(path_index("/Modem/12"), Some(12));
    assert_eq!(path_index("/Modem/x"), None);
    let order = find_order(&vec!["/Modem/10".to_string(), "/Modem/9".to_string()]);
    assert_eq!(order.len(), 2);
}

#[test]
fn a_modem_is_waited_for() {
    assert_eq!(activate(state::MODEM_REGISTERED, true, 0), Activation::Ready);
    assert_eq!(activate(state::MODEM_FAILED, true, 0), Activation::Failed);
    assert_eq!(activate(state::MODEM_LOCKED, true, 0), Activation::Locked);
    assert_eq!(activate(state::MODEM_DISABLED, true, 0), Activation::Enable);
    assert_eq!(activate(state::MODEM_INITIALIZING, true, 0), Activation::Wait);
    assert!(matches!(activate(state::MODEM_INITIALIZING, true, 100_000), Activation::TooLate { .. }));
    assert!(state::usable(state::MODEM_REGISTERED));
    assert_eq!(state::modem_state_name(state::MODEM_REGISTERED), "registered");
    assert_eq!(call::state_name(call::ACTIVE), "active");
    let mut r = Reconnect::new();
    assert_eq!(r.after(None), 1);
    assert_eq!(r.after(None), 2);
    assert_eq!(r.after(Some(60)), 1);
}

#[test]
fn the_watch_ends_when_the_modem_goes() {
    let path = "/Modem/3";
    let removed = Heard::Removed { path: path.to_string(), modem_interface: true };
    assert!(matches!(supervise(path, removed), Watch::Lost(Loss::Removed)));
    let other = Heard::Removed { path: "/Modem/4".to_string(), modem_interface: true };
    assert!(matches!(supervise(path, other), Watch::Go));
    assert!(matches!(supervise(path, Heard::CallAdded("/Call/1".into())), Watch::Follow(_)));
    match supervise(path, Heard::Health(Err("no reply".to_string()))) {
        Watch::Lost(loss) => assert_eq!(loss.reason(), "modem is unreachable on D-Bus: no reply"),
        other => panic!("{other:?}"),
    }
    assert!(matches!(
        supervise(path, Heard::Closed(Stream::Messages)),
        Watch::Lost(Loss::StreamClosed(Stream::Messages))
    ));
    assert!(!Loss::ManagerGone.reason().is_empty());
}

#[test]
fn what_the_bus_says_is_put_together() {
    let report = ModemReport {
        path: "/Modem/3".to_string(),
        device: "/sys/devices/usb1/1-3".to_string(),
        device_id: "abc".to_string(),
        equipment_id: "867".to_string(),
        manufacturer: "Quectel".to_string(),
        model: "EP06-E".to_string(),
        revision: "r".to_string(),
        primary_port: "cdc-wdm0".to_string(),
        own_numbers: vec!["8210".to_string(), "8211".to_string()],
        ports: vec![("ttyUSB2".to_string(), 3), ("cdc-wdm0".to_string(), 6)],
        sim: Some(SimReport {
            sim_id: Some("8982".to_string()),
            imsi: Some("45008".to_string()),
            operator: Some("KT".to_string()),
        }),
        network: Some(NetworkReport { imei: "867".to_string(), operator: None }),
    };
    let info = read_info(&report);
    assert_eq!(info.own_number.as_deref(), Some("8210"));
    assert_eq!(info.at_ports, vec!["/dev/ttyUSB2".to_string()]);
    assert_eq!(info.operator.as_deref(), Some("KT"));
    assert!(!ready_environment(&info, None).is_empty());
    assert!(matches!(
        resolve_alsa(&Audio::default(), &vec![], "/sys/devices/usb1/1-3"),
        CardChoice::NotFound
    ));
    let bearers = vec![
        BearerReport {
            connected: false,
            interface: "wwan0".to_string(),
            address: None,
            dns: vec![],
        },
        BearerReport {
            connected: true,
            interface: "wwan1".to_string(),
            address: Some("10.1.2.3".to_string()),
            dns: vec!["10.9.9.9".to_string(), "x".to_string()],
        },
    ];
    let b = data_bearer(&bearers).unwrap();
    assert_eq!(b.interface, "wwan1");
    assert_eq!(b.address, parse_ip("10.1.2.3"));
    assert_eq!(b.dns, vec![parse_ip("10.9.9.9").unwrap()]);
    assert_eq!(dtmf_digits("1 2#"), vec!['1', '2', '#']);
    assert_eq!(ModemInfo::default().model, "");
}
