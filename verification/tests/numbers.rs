use modem2sip::config::{Config, ConfigError};
use modem2sip::mm::ModemInfo;
use modem2sip::state::{http_base_url, own_number, to_national};
use modem2sip::vendor::{
    applies, channels, command, configure_port, Channel, Next, Setup, VendorAudioSetup,
};

#[test]
fn international_becomes_national() {
    assert_eq!(to_national("821012345678", Some("82"), "0"), "01012345678");
    assert_eq!(to_national("+821012345678", Some("82"), "0"), "01012345678");
    // Already national, or from somewhere else: left alone.
    assert_eq!(to_national("01012345678", Some("82"), "0"), "01012345678");
    assert_eq!(to_national("+4915112345678", Some("82"), "0"), "+4915112345678");
}

#[test]
fn the_country_code_may_carry_a_plus() {
    // Config and wire, in every combination.
    assert_eq!(to_national("821012345678", Some("+82"), "0"), "01012345678");
    assert_eq!(to_national("+821012345678", Some("+82"), "0"), "01012345678");
    assert_eq!(to_national("+821012345678", Some("82"), "0"), "01012345678");
    assert_eq!(to_national("821012345678", Some("82"), "0"), "01012345678");
}

#[test]
fn a_number_already_written_locally_is_left_alone() {
    // Applied twice over - a peer normalised on the way in and again on the way out to SIP - must
    // not shed another prefix.
    let once = to_national("+821012345678", Some("+82"), "0");
    assert_eq!(to_national(&once, Some("+82"), "0"), once);
    // Nor may a short code be mistaken for an international number.
    assert_eq!(to_national("106", Some("82"), "0"), "106");
}

#[test]
fn without_a_country_code_nothing_changes() {
    assert_eq!(to_national("821012345678", None, "0"), "821012345678");
    assert_eq!(to_national("821012345678", Some(""), "0"), "821012345678");
}

#[test]
fn a_plan_without_a_trunk_prefix() {
    // North America: +1 415 555 0100 is dialled as 4155550100.
    assert_eq!(to_national("+14155550100", Some("1"), ""), "4155550100");
}

#[test]
fn the_country_code_alone_is_not_a_number() {
    assert_eq!(to_national("82", Some("82"), "0"), "82");
}

#[test]
fn the_own_number_is_configured_or_on_the_sim() {
    let mut cfg = Config::default();
    cfg.modem.country_code = Some("82".to_string());
    cfg.modem.national_prefix = "0".to_string();
    assert_eq!(own_number(&cfg, Some("821011112222")).as_deref(), Some("01011112222"));
    cfg.modem.own_number = Some("+821033334444".to_string());
    assert_eq!(own_number(&cfg, Some("821011112222")).as_deref(), Some("01033334444"));
    cfg.modem.own_number = Some("  ".to_string());
    assert_eq!(own_number(&cfg, None), None);
    assert_eq!(http_base_url(&cfg), "http://127.0.0.1:8088");
}

fn info(manufacturer: &str, model: &str, ports: &[&str]) -> ModemInfo {
    ModemInfo {
        manufacturer: manufacturer.into(),
        model: model.into(),
        at_ports: ports.iter().map(|p| p.to_string()).collect(),
        ..Default::default()
    }
}

#[test]
fn auto_targets_quectel_only() {
    let quectel = info("Quectel", "EP06-E", &["/dev/ttyUSB2", "/dev/ttyUSB3"]);
    let other = info("Sierra Wireless", "EM7455", &["/dev/ttyUSB0"]);
    assert!(applies(VendorAudioSetup::Auto, &quectel));
    assert!(!applies(VendorAudioSetup::Auto, &other));
    assert!(applies(VendorAudioSetup::Always, &other));
    assert!(!applies(VendorAudioSetup::Never, &quectel));
}

#[test]
fn model_prefix_is_enough() {
    // Some firmwares leave the manufacturer string empty.
    let m = info("", "EC25-E", &["/dev/ttyUSB2"]);
    assert!(applies(VendorAudioSetup::Auto, &m));
}

#[test]
fn no_at_port_means_nothing_to_do() {
    let m = info("Quectel", "EP06-E", &[]);
    assert!(!applies(VendorAudioSetup::Auto, &m));
    assert!(!applies(VendorAudioSetup::Always, &m));
}

#[test]
fn the_voice_path_is_switched_on_where_it_is_off() {
    let m = info("Quectel", "EP06-E", &["/dev/ttyUSB2", "/dev/ttyUSB3"]);
    assert_eq!(
        channels(&m),
        vec![
            Channel::Manager,
            Channel::Port("/dev/ttyUSB3".to_string()),
            Channel::Port("/dev/ttyUSB2".to_string()),
        ]
    );
    assert_eq!(
        configure_port(Setup::AskVoice, Some("+QPCMV: 1,2\r\nOK\r\n"), false),
        Next::AlreadyOn
    );
    assert_eq!(
        configure_port(Setup::AskVoice, Some("+QPCMV: 0\r\nOK\r\n"), false),
        Next::Send(Setup::Enable)
    );
    assert_eq!(configure_port(Setup::Enable, Some("OK"), false), Next::Enabled);
    assert_eq!(command(Setup::AskInterface), "AT+QDAI?");
    assert_eq!(command(Setup::AskVoice), "AT+QPCMV?");
    assert_eq!(command(Setup::Enable), "AT+QPCMV=1,2");
    assert_eq!(configure_port(Setup::Enable, None, false), Next::Failed);
}

#[test]
fn the_configuration_is_checked() {
    let cfg = Config::default();
    assert_eq!(cfg.validate(true, true), Ok(()));
    assert_eq!(cfg.validate(false, true), Err(ConfigError::TxGain));
    assert_eq!(cfg.validate(true, false), Err(ConfigError::RxGain));
    let broken = |change: &dyn Fn(&mut Config)| {
        let mut c = Config::default();
        change(&mut c);
        c.validate(true, true).err()
    };
    assert_eq!(broken(&|c| c.sip.bind = "nowhere".into()), Some(ConfigError::SipBind));
    assert_eq!(broken(&|c| c.http.bind = "nowhere".into()), Some(ConfigError::HttpBind));
    assert_eq!(broken(&|c| c.rtp.port_min = 65000), Some(ConfigError::PortOrder));
    assert_eq!(broken(&|c| c.rtp.bind = Some("x".into())), Some(ConfigError::RtpBind));
    assert_eq!(broken(&|c| c.rtp.public_ip = Some("x".into())), Some(ConfigError::RtpPublicIp));
    assert_eq!(broken(&|c| c.sip.ring_timeout_secs = 0), Some(ConfigError::RingTimeout));
    assert_eq!(broken(&|c| c.audio.period_ms = 0), Some(ConfigError::PeriodMs));
    assert_eq!(broken(&|c| c.mms.enabled = true), Some(ConfigError::Mmsc));
    assert_eq!(
        broken(&|c| {
            c.mms.enabled = true;
            c.mms.mmsc = Some("http://mmsc".into());
            c.mms.max_size = 0;
        }),
        Some(ConfigError::MaxSize)
    );
    assert_eq!(broken(&|c| c.http.token = Some("".into())), Some(ConfigError::HttpToken));
    assert_eq!(broken(&|c| c.rtp.port_min = 80), Some(ConfigError::PortMin));
    assert_eq!(broken(&|c| c.rtp.dtmf_payload_type = 8), Some(ConfigError::DtmfPayloadType));
    assert_eq!(broken(&|c| c.audio.rate = 1), Some(ConfigError::Rate));
    assert_eq!(broken(&|c| c.audio.periods = 1), Some(ConfigError::Periods));
    assert_eq!(
        broken(&|c| c.sip.register = Some(Default::default())),
        Some(ConfigError::Registrar)
    );
    assert!(!ConfigError::SipBind.message().is_empty());
    assert_eq!(cfg.storage.db_path(), "./data/modem2sip.db");
}
