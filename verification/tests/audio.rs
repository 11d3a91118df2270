use modem2sip::audio::alsa_io::{period_frames, recover, AudioRings, Recovery, MAX_TONE_SAMPLES};
use modem2sip::audio::codec::{
    alaw_to_linear, decode, dtmf_frequencies, dtmf_key, encode, linear_to_alaw, linear_to_ulaw,
    samples_in, tone_shape, ulaw_to_linear, Law, ToneShape,
};
use modem2sip::audio::discovery::{
    find_for_modem, is_under, list_cards, proc_asound_name, usb_device_root, AlsaCard, SoundEntry,
};

fn rings() -> AudioRings {
    AudioRings::new(60, 20)
}

/// A backlog has to come back down to the target instead of staying at the ceiling.
#[test]
fn a_ring_that_runs_long_is_trimmed_back_to_the_target() {
    let mut r = rings();
    let target = r.target;
    for _ in 0..200 {
        r.push_from_network(&vec![0i16; 160]);
    }
    let depth = r.to_modem.len();
    assert!(depth <= r.high_water, "{depth} samples still queued");
    assert!(depth >= target, "trimmed below the target: {depth} < {target}");
    // One trim per overflow, not one per dropped sample.
    assert!(r.overruns < 200);
}

/// A backlog inside the target is the jitter buffer doing its job.
#[test]
fn normal_buffering_is_left_alone() {
    let mut r = rings();
    r.push_from_network(&vec![0i16; 480]); // 60 ms
    assert_eq!(r.to_modem.len(), 480);
    assert_eq!(r.overruns, 0);
}

/// A digit that does not fit is refused, not cut.
#[test]
fn a_full_tone_queue_refuses_rather_than_truncating() {
    let mut r = rings();
    let digit = vec![0i16; 2080]; // 260 ms, one digit plus its gap
    let mut accepted = 0;
    while r.queue_tone(&digit) {
        accepted += 1;
        assert!(accepted < 100, "the queue never filled up");
    }
    assert!(accepted > 20, "only {accepted} digits fitted");
    assert!(r.tone.len() <= MAX_TONE_SAMPLES);
}

#[test]
fn samples_leave_a_ring_in_the_order_they_came() {
    let mut r = rings();
    r.push_from_card(&[1, 2, 3, 4]);
    assert_eq!(r.take_for_network(2), vec![1, 2]);
    assert_eq!(r.take_for_network(2), vec![3, 4]);
    // Nothing left: silence, so that the stream keeps its pace.
    assert_eq!(r.take_for_network(2), vec![0, 0]);
}

#[test]
fn a_tone_goes_to_the_card_before_the_voice() {
    let mut r = rings();
    assert!(!r.tone_pending());
    r.push_from_network(&[5, 5, 5, 5]);
    assert!(r.queue_tone(&[100, 101]));
    assert!(r.tone_pending());
    let out = r.take_for_card(4);
    assert_eq!(out.len(), 4);
    assert_eq!(&out[0..2], &[100, 101]);
    assert!(!r.tone_pending());
}

#[test]
fn the_uplink_level_is_an_average() {
    let mut r = rings();
    r.push_from_card(&[100, -100, 100, -100]);
    r.push_from_card(&[300, -300, 300, -300]);
    assert_eq!(r.uplink_level(), (0, 0));
    r.take_for_network(4);
    r.take_for_network(4);
    let (sum, frames) = r.uplink_raw();
    assert_eq!((sum, frames), (400, 2));
    assert_eq!(r.uplink_level(), (200, 2));
    r.reset_uplink_level();
    assert_eq!(r.uplink_level(), (0, 0));
}

#[test]
fn a_card_that_keeps_failing_is_given_up() {
    assert_eq!(period_frames(8000, 20), 160);
    let mut errors = 0;
    assert_eq!(recover(&mut errors), Recovery::Recover);
    let mut n = 1;
    while recover(&mut errors) == Recovery::Recover {
        n += 1;
        assert!(n < 1000);
    }
}

#[test]
fn ulaw_round_trip_is_close() {
    for sample in [-32000i16, -1000, -1, 0, 1, 1000, 32000] {
        let decoded = ulaw_to_linear(linear_to_ulaw(sample));
        let err = (decoded as i32 - sample as i32).abs();
        assert!(err <= (sample.unsigned_abs() as i32 / 8) + 256, "sample {sample} -> {decoded}");
    }
}

#[test]
fn alaw_round_trip_is_close() {
    for sample in [-32000i16, -1000, -1, 0, 1, 1000, 32000] {
        let decoded = alaw_to_linear(linear_to_alaw(sample));
        let err = (decoded as i32 - sample as i32).abs();
        assert!(err <= (sample.unsigned_abs() as i32 / 8) + 256, "sample {sample} -> {decoded}");
    }
}

#[test]
fn known_companded_values() {
    assert_eq!(linear_to_ulaw(0), 0xff);
    assert_eq!(ulaw_to_linear(0xff), 0);
    assert_eq!(ulaw_to_linear(0x00), -32124);
    assert_eq!(ulaw_to_linear(0x80), 32124);
    assert_eq!(linear_to_alaw(0), 0xd5);
    assert_eq!(alaw_to_linear(0xd5), 8);
    assert_eq!(alaw_to_linear(0x55), -8);
}

#[test]
fn codes_survive_a_round_trip() {
    for code in 0..=255u8 {
        assert_eq!(linear_to_alaw(alaw_to_linear(code)), code);
        if code != 0x7f {
            assert_eq!(linear_to_ulaw(ulaw_to_linear(code)), code);
        }
    }
}

#[test]
fn frames_are_companded_sample_by_sample() {
    let mut out = Vec::new();
    encode(Law::Ulaw, &[0, 1000, -1000], &mut out);
    assert_eq!(out, vec![linear_to_ulaw(0), linear_to_ulaw(1000), linear_to_ulaw(-1000)]);
    let mut pcm = Vec::new();
    decode(Law::Ulaw, &out, &mut pcm);
    assert_eq!(pcm.len(), 3);
    let mut out = Vec::new();
    encode(Law::Alaw, &[0, 1000], &mut out);
    assert_eq!(out, vec![linear_to_alaw(0), linear_to_alaw(1000)]);
}

#[test]
fn every_dtmf_digit_is_generated() {
    for d in "0123456789*#ABCD".chars() {
        assert!(tone_shape(d, 40, 8000).is_some(), "digit {d}");
    }
    assert!(tone_shape('x', 40, 8000).is_none());
}

#[test]
fn a_tone_rises_and_falls_inside_itself() {
    let shape = tone_shape('3', 180, 8000).unwrap();
    assert_eq!(shape, ToneShape { low: 697, high: 1477, samples: 1440, ramp: 32 });
    assert_eq!(tone_shape('3', 5, 8000).unwrap().ramp, 20);
    assert_eq!(tone_shape('3', 0, 8000).unwrap().ramp, 1);
}

#[test]
fn every_key_has_its_pair_of_tones() {
    assert_eq!(dtmf_frequencies('3'), Some((697, 1477)));
    assert_eq!(dtmf_frequencies('0'), Some((941, 1336)));
    assert_eq!(dtmf_frequencies('d'), dtmf_frequencies('D'));
    assert_eq!(dtmf_key(0, 2), Some('3'));
    assert_eq!(dtmf_key(4, 0), None);
    assert_eq!(samples_in(8000, 180), 1440);
}

#[test]
fn usb_root_extraction() {
    let p = "/sys/devices/pci0000:00/0000:00:14.0/usb1/1-3/1-3:1.2/sound/card1";
    assert_eq!(
        usb_device_root(p).unwrap(),
        "/sys/devices/pci0000:00/0000:00:14.0/usb1/1-3"
    );
}

/// Two identical modems on one hub must not share a root, or each one sees the other's sound card as
/// a candidate.
#[test]
fn devices_behind_a_hub_stay_distinct() {
    let base = "/sys/devices/pci0000:00/0000:00:14.0/usb1/1-3";
    let a = format!("{base}/1-3.1/1-3.1:1.2/sound/card1");
    let b = format!("{base}/1-3.2/1-3.2:1.2/sound/card2");
    assert_eq!(usb_device_root(&a).unwrap(), format!("{base}/1-3.1"));
    assert_eq!(usb_device_root(&b).unwrap(), format!("{base}/1-3.2"));
    assert_ne!(usb_device_root(&a), usb_device_root(&b));
}

fn card(index: u32, id: &str, path: &str) -> AlsaCard {
    AlsaCard {
        index,
        id: id.to_string(),
        name: format!("{id} card"),
        device_path: path.to_string(),
        has_playback: true,
        has_capture: true,
    }
}

#[test]
fn a_modem_gets_the_card_on_its_own_device() {
    let base = "/sys/devices/pci0000:00/0000:00:14.0/usb1/1-3";
    let cards = vec![
        card(0, "PCH", "/sys/devices/pci0000:00/0000:00:1f.3"),
        card(1, "EP06E", &format!("{base}/1-3.1/1-3.1:1.2")),
        card(2, "EP06E_1", &format!("{base}/1-3.2/1-3.2:1.2")),
    ];
    let found = find_for_modem(&cards, &format!("{base}/1-3.2"), None).unwrap();
    assert_eq!(found.index, 2);
    assert_eq!(found.device_string(true), "plughw:EP06E_1,0");
    assert_eq!(found.device_string(false), "hw:EP06E_1,0");
    assert!(is_under(&format!("{base}/1-3.2/x"), &format!("{base}/1-3.2")));
    assert!(!is_under(&format!("{base}/1-3.20"), &format!("{base}/1-3.2")));
}

#[test]
fn cards_are_read_from_what_the_kernel_lists() {
    let names = " 0 [PCH            ]: HDA-Intel - HDA Intel PCH\n                      HDA at 0\n 1 [EP06E          ]: USB-Audio - EP06-E\n                      Quectel\n";
    assert_eq!(proc_asound_name(names, 1).as_deref(), Some("USB-Audio - EP06-E"));
    assert_eq!(proc_asound_name(names, 7), None);
    let entries = vec![
        SoundEntry {
            name: "card1".to_string(),
            id: Some("EP06E\n".to_string()),
            device_path: "/sys/devices/usb1/1-3/1-3:1.2".to_string(),
            parts: vec!["pcmC1D0c".to_string(), "pcmC1D0p".to_string()],
        },
        SoundEntry {
            name: "controlC1".to_string(),
            id: None,
            device_path: String::new(),
            parts: vec![],
        },
        SoundEntry {
            name: "card0".to_string(),
            id: Some("PCH".to_string()),
            device_path: "/sys/devices/pci".to_string(),
            parts: vec!["pcmC0D0p".to_string()],
        },
    ];
    let cards = list_cards(&entries, names);
    assert_eq!(cards.len(), 2);
    assert_eq!(cards[0].index, 0);
    assert!(cards[0].has_playback && !cards[0].has_capture);
    assert_eq!(cards[1].id, "EP06E");
    assert!(cards[1].has_playback && cards[1].has_capture);
}
