//! Configuration: the values the gateway runs on, their defaults, and the rules they must meet.
//!
//! One process serves exactly one modem, selected by the `modem` matcher. Everything else has a
//! usable default. The two linear gains of the audio path are floating-point numbers and live with
//! the code that applies them; only whether they are in range is known here.
use vstd::prelude::*;

use crate::net;
use crate::net::{IpAddr, SocketAddr};
use crate::text;
use crate::vendor::VendorAudioSetup;

verus! {

#[derive(Debug)]
pub struct Config {
    pub general: General,
    pub modem: ModemMatch,
    pub audio: Audio,
    pub sip: Sip,
    pub rtp: Rtp,
    pub storage: Storage,
    pub sms: Sms,
    pub mms: Mms,
    pub http: Http,
}

#[derive(Debug)]
pub struct General {
    /// Tracing filter, e.g. "info", "modem2sip=debug,zbus=warn".
    pub log: String,
    /// Friendly name used in logs and in the HTTP API.
    pub name: String,
}

impl General {
    /// The values that hold where nothing is configured.
    pub open spec fn is_default(&self) -> bool {
        &&& self.log@ == "info"@
        &&& self.name@ == "modem2sip"@
    }
}

impl Default for General {
    fn default() -> (r: Self)
        ensures
            r.is_default(),
    {
        Self { log: text::owned("info"), name: text::owned("modem2sip") }
    }
}

/// How to pick the modem this process owns.
///
/// Every field that is set must match; unset fields are ignored. With no field set at all the first
/// modem reported by ModemManager is used, which is only sensible on single-modem systems.
#[derive(Debug)]
pub struct ModemMatch {
    /// EquipmentIdentifier (IMEI/ESN). Most stable identifier.
    pub imei: Option<String>,
    /// ModemManager `Device` property: the sysfs path of the physical device, matched as a prefix.
    pub device: Option<String>,
    /// ModemManager `DeviceIdentifier` property.
    pub device_id: Option<String>,
    /// Primary control port, e.g. `cdc-wdm0` or `ttyUSB2`.
    pub primary_port: Option<String>,
    /// SIM ICCID.
    pub sim_id: Option<String>,
    /// SIM IMSI.
    pub imsi: Option<String>,
    /// D-Bus object index. Unstable across replugs: prefer `imei` or `device`.
    pub index: Option<u32>,
    /// Enable the modem if ModemManager reports it as disabled.
    pub enable: bool,
    /// Own MSISDN. Used as the SIP user part for outbound notifications when the SIM does not
    /// report one.
    pub own_number: Option<String>,
    /// Country code of the line, with or without a plus: numbers of that country are written the
    /// national way.
    pub country_code: Option<String>,
    /// The trunk prefix national numbers start with.
    pub national_prefix: String,
    /// Shell command run every time the modem becomes ready (also after a replug).
    pub ready_command: Option<String>,
}

impl ModemMatch {
    /// The values that hold where nothing is configured.
    pub open spec fn is_default(&self) -> bool {
        &&& self.imei.is_none() && self.device.is_none() && self.device_id.is_none()
                && self.primary_port.is_none() && self.sim_id.is_none() && self.imsi.is_none()
                && self.index.is_none() && self.own_number.is_none() && self.country_code.is_none()
                && self.ready_command.is_none()
        &&& self.enable
        &&& self.national_prefix@ == "0"@
    }
}

impl Default for ModemMatch {
    fn default() -> (r: Self)
        ensures
            r.is_default(),
    {
        Self {
            imei: None,
            device: None,
            device_id: None,
            primary_port: None,
            sim_id: None,
            imsi: None,
            index: None,
            // Enabling a disabled modem is what an unattended gateway wants.
            enable: true,
            own_number: None,
            country_code: None,
            national_prefix: text::owned("0"),
            ready_command: None,
        }
    }
}

#[derive(Debug)]
pub struct Audio {
    /// Auto-detect the ALSA card that belongs to this modem by walking sysfs from the modem's
    /// `Device` path.
    pub auto: bool,
    /// Explicit ALSA device for both directions, e.g. "hw:2,0" or "plughw:2,0".
    pub device: Option<String>,
    /// Per-direction overrides (win over `device`).
    pub capture_device: Option<String>,
    pub playback_device: Option<String>,
    /// Substring matched against the ALSA card id and name when auto-detection finds several
    /// candidates.
    pub card_hint: Option<String>,
    /// Sample rate of the modem card. The negotiated RTP rate is always 8000; resampling is
    /// automatic.
    pub rate: u32,
    /// Packetisation / ALSA period in milliseconds.
    pub period_ms: u32,
    /// ALSA ring buffer size in periods.
    pub periods: u32,
    /// Honour the `AudioPort` property of the call when present.
    pub use_mm_audio_port: bool,
    /// Switch the modem's USB voice path on by itself.
    pub vendor_audio_setup: VendorAudioSetup,
}

impl Audio {
    /// The values that hold where nothing is configured.
    pub open spec fn is_default(&self) -> bool {
        &&& self.auto
        &&& self.device.is_none() && self.capture_device.is_none() && self.playback_device.is_none()
                && self.card_hint.is_none()
        &&& self.rate == 8000
        &&& self.period_ms == 20
        &&& self.periods == 4
        &&& self.use_mm_audio_port
        &&& self.vendor_audio_setup == VendorAudioSetup::Auto
    }
}

impl Default for Audio {
    fn default() -> (r: Self)
        ensures
            r.is_default(),
    {
        Self {
            auto: true,
            device: None,
            capture_device: None,
            playback_device: None,
            card_hint: None,
            rate: 8000,
            period_ms: 20,
            periods: 4,
            use_mm_audio_port: true,
            vendor_audio_setup: VendorAudioSetup::Auto,
        }
    }
}

#[derive(Debug)]
pub struct Sip {
    /// UDP socket the built-in SIP server listens on.
    pub bind: String,
    /// Address advertised in Contact and Via.
    pub public_ip: Option<String>,
    /// Realm used for digest authentication and as the default URI host.
    pub domain: Option<String>,
    pub user_agent: String,
    /// When set, inbound requests must authenticate with these credentials (digest, MD5).
    pub auth: Option<SipAuth>,
    /// Where inbound (modem to SIP) calls are sent. If unset the most recently registered contact
    /// is used.
    pub call_target: Option<String>,
    /// Where SMS/MMS notifications are sent. Falls back to `call_target` and then to the registered
    /// contact.
    pub sms_target: Option<String>,
    /// Optional source-IP allow list (plain addresses or CIDR). Empty = any.
    pub allow: Vec<String>,
    /// Optional outbound registration to an upstream registrar.
    pub register: Option<Upstream>,
    /// Let the caller hear what the network plays while the call is ringing.
    pub early_media: bool,
    /// How long an outbound INVITE may ring before it is abandoned.
    pub ring_timeout_secs: u64,
    /// User part used in the From header of gateway-originated requests.
    pub from_user: Option<String>,
    /// Reply 503 (instead of 200) to OPTIONS while the modem is unusable.
    pub options_reflect_modem: bool,
    /// Retry-After value sent with 503 responses.
    pub retry_after_secs: u32,
}

impl Sip {
    /// The values that hold where nothing is configured.
    pub open spec fn is_default(&self) -> bool {
        &&& self.bind@ == "0.0.0.0:5060"@
        &&& self.public_ip.is_none() && self.domain.is_none() && self.auth.is_none()
                && self.call_target.is_none() && self.sms_target.is_none() && self.register.is_none()
                && self.from_user.is_none()
        &&& self.user_agent@ == "modem2sip/0.1.0"@
        &&& self.allow@.len() == 0
        &&& self.early_media
        &&& self.ring_timeout_secs == 60
        &&& self.options_reflect_modem
        &&& self.retry_after_secs == 30
    }
}

impl Default for Sip {
    fn default() -> (r: Self)
        ensures
            r.is_default(),
    {
        Self {
            bind: text::owned("0.0.0.0:5060"),
            public_ip: None,
            domain: None,
            user_agent: text::owned("modem2sip/0.1.0"),
            auth: None,
            call_target: None,
            sms_target: None,
            allow: Vec::new(),
            register: None,
            early_media: true,
            ring_timeout_secs: 60,
            from_user: None,
            options_reflect_modem: true,
            retry_after_secs: 30,
        }
    }
}

#[derive(Debug)]
pub struct SipAuth {
    pub username: String,
    pub password: String,
}

#[derive(Debug)]
pub struct Upstream {
    /// e.g. "sip:pbx.example.net" or "sip:pbx.example.net:5060".
    pub registrar: String,
    pub username: String,
    pub password: String,
    pub expires: u32,
    /// Defaults to `username`.
    pub from_user: Option<String>,
    pub contact_user: Option<String>,
}

impl Upstream {
    /// The values that hold where nothing is configured.
    pub open spec fn is_default(&self) -> bool {
        &&& self.registrar@.len() == 0 && self.username@.len() == 0 && self.password@.len() == 0
        &&& self.expires == 300
        &&& self.from_user.is_none() && self.contact_user.is_none()
    }
}

impl Default for Upstream {
    fn default() -> (r: Self)
        ensures
            r.is_default(),
    {
        Self {
            registrar: String::new(),
            username: String::new(),
            password: String::new(),
            expires: 300,
            from_user: None,
            contact_user: None,
        }
    }
}

#[derive(Debug)]
pub struct Rtp {
    /// Address RTP sockets bind to. Defaults to the SIP address.
    pub bind: Option<String>,
    /// Address put in the SDP instead of the one the sockets live on.
    pub public_ip: Option<String>,
    pub port_min: u16,
    pub port_max: u16,
    /// Target jitter buffer depth in milliseconds.
    pub jitter_ms: u32,
    /// Payload type offered for RFC 2833 telephone-event.
    pub dtmf_payload_type: u8,
    /// Latch the remote RTP address from the first received packet.
    pub symmetric: bool,
    /// How digits received from SIP reach the far end.
    pub dtmf_method: DtmfMethod,
    /// Length of a generated in-band digit and the silence after it.
    pub dtmf_tone_ms: u32,
    pub dtmf_gap_ms: u32,
    /// Listen for DTMF tones in the audio coming from the mobile network and relay them to SIP as
    /// INFO.
    pub detect_inband_dtmf: bool,
    /// End a call whose SIP peer has sent no RTP for this many seconds; 0 disables the check.
    pub timeout_secs: u64,
}

#[derive(Debug, Clone, Copy, PartialEq, Eq, Structural)]
pub enum DtmfMethod {
    /// Ask ModemManager first, fall back to in-band tones when it fails.
    Auto,
    /// `Call.SendDtmf` only.
    Modem,
    /// Generate the tones in the uplink audio only.
    Inband,
    /// Drop them.
    Off,
}

impl Default for DtmfMethod {
    fn default() -> (r: Self)
        ensures
            r == DtmfMethod::Auto,
    {
        DtmfMethod::Auto
    }
}

impl Rtp {
    /// The values that hold where nothing is configured.
    pub open spec fn is_default(&self) -> bool {
        &&& self.bind.is_none() && self.public_ip.is_none()
        &&& self.port_min == 16384 && self.port_max == 16584
        &&& self.jitter_ms == 60
        &&& self.dtmf_payload_type == 101
        &&& self.symmetric
        &&& self.dtmf_method == DtmfMethod::Auto
        &&& self.dtmf_tone_ms == 180 && self.dtmf_gap_ms == 80
        &&& self.detect_inband_dtmf
        &&& self.timeout_secs == 60
    }
}

impl Default for Rtp {
    fn default() -> (r: Self)
        ensures
            r.is_default(),
    {
        Self {
            bind: None,
            public_ip: None,
            port_min: 16384,
            port_max: 16584,
            jitter_ms: 60,
            dtmf_payload_type: 101,
            symmetric: true,
            dtmf_method: DtmfMethod::Auto,
            dtmf_tone_ms: 180,
            dtmf_gap_ms: 80,
            detect_inband_dtmf: true,
            timeout_secs: 60,
        }
    }
}

#[derive(Debug)]
pub struct Storage {
    /// Base directory for the SQLite database and MMS attachments.
    pub dir: String,
    /// Database file name (relative to `dir` unless absolute).
    pub db: String,
}

impl Storage {
    /// The values that hold where nothing is configured.
    pub open spec fn is_default(&self) -> bool {
        &&& self.dir@ == "./data"@
        &&& self.db@ == "modem2sip.db"@
    }
}

impl Default for Storage {
    fn default() -> (r: Self)
        ensures
            r.is_default(),
    {
        Self { dir: text::owned("./data"), db: text::owned("modem2sip.db") }
    }
}

/// A path below a directory; an absolute one stands for itself.
pub open spec fn path_below(dir: Seq<char>, p: Seq<char>) -> Seq<char> {
    if p.len() > 0 && p[0] == '/' {
        p
    } else if dir.len() == 0 || dir.last() == '/' {
        dir + p
    } else {
        dir + "/"@ + p
    }
}

pub fn join_path(dir: &str, p: &str) -> (r: String)
    ensures
        r@ == path_below(dir@, p@),
{
    let d = text::chars_of(dir);
    let c = text::chars_of(p);
    if c.len() > 0 && c[0] == '/' {
        text::owned(p)
    } else {
        let mut out = text::owned(dir);
        if d.len() > 0 && d[d.len() - 1] != '/' {
            out.append("/");
        }
        out.append(p);
        out
    }
}

impl Storage {
    pub fn db_path(&self) -> (r: String)
        ensures
            r@ == path_below(self.dir@, self.db@),
    {
        join_path(self.dir.as_str(), self.db.as_str())
    }

    pub fn attachments_dir(&self) -> (r: String)
        ensures
            r@ == path_below(self.dir@, "attachments"@),
    {
        join_path(self.dir.as_str(), "attachments")
    }
}

#[derive(Debug)]
pub struct Sms {
    /// Delete the message from modem/SIM storage once it is safely stored.
    pub delete_from_modem: bool,
    /// Forward received messages to SIP as a MESSAGE request.
    pub notify_sip: bool,
    /// Request a delivery report for outgoing messages.
    pub delivery_report: bool,
}

impl Sms {
    /// The values that hold where nothing is configured.
    pub open spec fn is_default(&self) -> bool {
        &&& self.delete_from_modem && self.notify_sip && !self.delivery_report
    }
}

impl Default for Sms {
    fn default() -> (r: Self)
        ensures
            r.is_default(),
    {
        Self { delete_from_modem: true, notify_sip: true, delivery_report: false }
    }
}

#[derive(Debug)]
pub struct Mms {
    pub enabled: bool,
    /// MMSC URL (carrier specific).
    pub mmsc: Option<String>,
    /// WAP gateway / HTTP proxy, "host:port".
    pub proxy: Option<String>,
    /// Bind MMS traffic to this network interface.
    pub interface: Option<String>,
    /// Bind MMS traffic to this source address instead / additionally.
    pub local_ip: Option<IpAddr>,
    /// DNS servers used for MMSC host names; empty means whatever the data bearer reports.
    pub dns: Vec<IpAddr>,
    /// Automatically fetch the message body when a notification arrives.
    pub auto_retrieve: bool,
    /// Refuse to download anything larger than this (bytes).
    pub max_size: usize,
    pub user_agent: String,
    /// UAProf URL sent as x-wap-profile.
    pub ua_profile: Option<String>,
    /// Optional shell command executed before MMS traffic (route/APN setup).
    pub setup_command: Option<String>,
    pub timeout_secs: u64,
}

impl Mms {
    /// The values that hold where nothing is configured.
    pub open spec fn is_default(&self) -> bool {
        &&& !self.enabled
        &&& self.mmsc.is_none() && self.proxy.is_none() && self.interface.is_none() && self.local_ip.is_none()
                && self.ua_profile.is_none() && self.setup_command.is_none()
        &&& self.dns@.len() == 0
        &&& self.auto_retrieve
        &&& self.max_size == 2_097_152
        &&& self.user_agent@ == "modem2sip/0.1.0"@
        &&& self.timeout_secs == 60
    }
}

impl Default for Mms {
    fn default() -> (r: Self)
        ensures
            r.is_default(),
    {
        Self {
            enabled: false,
            mmsc: None,
            proxy: None,
            interface: None,
            local_ip: None,
            dns: Vec::new(),
            auto_retrieve: true,
            max_size: 2_097_152,
            user_agent: text::owned("modem2sip/0.1.0"),
            ua_profile: None,
            setup_command: None,
            timeout_secs: 60,
        }
    }
}

#[derive(Debug)]
pub struct Http {
    /// Local control/attachment API.
    pub enabled: bool,
    pub bind: String,
    /// Externally reachable base URL used when building attachment links.
    pub base_url: Option<String>,
    /// Optional bearer token required for every request.
    pub token: Option<String>,
}

impl Http {
    /// The values that hold where nothing is configured.
    pub open spec fn is_default(&self) -> bool {
        &&& self.enabled
        &&& self.bind@ == "127.0.0.1:8088"@
        &&& self.base_url.is_none() && self.token.is_none()
    }
}

impl Default for Http {
    fn default() -> (r: Self)
        ensures
            r.is_default(),
    {
        Self { enabled: true, bind: text::owned("127.0.0.1:8088"), base_url: None, token: None }
    }
}

impl Default for Config {
    fn default() -> (r: Self)
        ensures
            r.general.is_default(),
            r.modem.is_default(),
            r.audio.is_default(),
            r.sip.is_default(),
            r.rtp.is_default(),
            r.storage.is_default(),
            r.sms.is_default(),
            r.mms.is_default(),
            r.http.is_default(),
    {
        Config {
            general: General::default(),
            modem: ModemMatch::default(),
            audio: Audio::default(),
            sip: Sip::default(),
            rtp: Rtp::default(),
            storage: Storage::default(),
            sms: Sms::default(),
            mms: Mms::default(),
            http: Http::default(),
        }
    }
}

// ------------------------------------------------------------------ rules

/// The first rule a configuration breaks.
#[derive(Debug, Clone, Copy, PartialEq, Eq, Structural)]
pub enum ConfigError {
    SipBind,
    HttpBind,
    HttpToken,
    PortOrder,
    PortMin,
    DtmfPayloadType,
    RtpBind,
    RtpPublicIp,
    RingTimeout,
    PeriodMs,
    Rate,
    Periods,
    TxGain,
    RxGain,
    Mmsc,
    MaxSize,
    Registrar,
}

pub open spec fn error_text(e: ConfigError) -> Seq<char> {
    match e {
        ConfigError::SipBind => "sip.bind is not a socket address"@,
        ConfigError::HttpBind => "http.bind is not a socket address"@,
        ConfigError::HttpToken => "http.token must not be empty"@,
        ConfigError::PortOrder => "rtp.port_min must be < rtp.port_max"@,
        ConfigError::PortMin => "rtp.port_min must be >= 1024"@,
        ConfigError::DtmfPayloadType => "rtp.dtmf_payload_type must be a dynamic type (96..127)"@,
        ConfigError::RtpBind => "rtp.bind is not an IP address"@,
        ConfigError::RtpPublicIp => "rtp.public_ip is not an IP address"@,
        ConfigError::RingTimeout => "sip.ring_timeout_secs must be > 0"@,
        ConfigError::PeriodMs => "audio.period_ms must be between 1 and 200"@,
        ConfigError::Rate => "audio.rate must be between 8000 and 192000"@,
        ConfigError::Periods => "audio.periods must be between 2 and 32"@,
        ConfigError::TxGain => "audio.tx_gain must be between 0 and 16"@,
        ConfigError::RxGain => "audio.rx_gain must be between 0 and 16"@,
        ConfigError::Mmsc => "mms.enabled requires mms.mmsc"@,
        ConfigError::MaxSize => "mms.max_size must be > 0"@,
        ConfigError::Registrar => "sip.register.registrar is required"@,
    }
}

impl ConfigError {
    pub fn message(&self) -> (r: String)
        ensures
            r@ == error_text(*self),
    {
        match self {
            ConfigError::SipBind => text::owned("sip.bind is not a socket address"),
            ConfigError::HttpBind => text::owned("http.bind is not a socket address"),
            ConfigError::HttpToken => text::owned("http.token must not be empty"),
            ConfigError::PortOrder => text::owned("rtp.port_min must be < rtp.port_max"),
            ConfigError::PortMin => text::owned("rtp.port_min must be >= 1024"),
            ConfigError::DtmfPayloadType => text::owned(
                "rtp.dtmf_payload_type must be a dynamic type (96..127)",
            ),
            ConfigError::RtpBind => text::owned("rtp.bind is not an IP address"),
            ConfigError::RtpPublicIp => text::owned("rtp.public_ip is not an IP address"),
            ConfigError::RingTimeout => text::owned("sip.ring_timeout_secs must be > 0"),
            ConfigError::PeriodMs => text::owned("audio.period_ms must be between 1 and 200"),
            ConfigError::Rate => text::owned("audio.rate must be between 8000 and 192000"),
            ConfigError::Periods => text::owned("audio.periods must be between 2 and 32"),
            ConfigError::TxGain => text::owned("audio.tx_gain must be between 0 and 16"),
            ConfigError::RxGain => text::owned("audio.rx_gain must be between 0 and 16"),
            ConfigError::Mmsc => text::owned("mms.enabled requires mms.mmsc"),
            ConfigError::MaxSize => text::owned("mms.max_size must be > 0"),
            ConfigError::Registrar => text::owned("sip.register.registrar is required"),
        }
    }
}

/// An optional address is one where it is given.
pub open spec fn ip_or_none(v: Option<String>) -> bool {
    match v {
        Some(s) => net::ip_of(s@).is_some(),
        None => true,
    }
}

fn check_ip(v: &Option<String>) -> (r: bool)
    ensures
        r == ip_or_none(*v),
{
    match v {
        Some(s) => net::parse_ip(s.as_str()).is_some(),
        None => true,
    }
}

impl Config {
    /// The first rule this configuration breaks, given whether each gain is in range.
    pub open spec fn problem(&self, tx_gain_ok: bool, rx_gain_ok: bool) -> Option<ConfigError> {
        if net::socket_of(self.sip.bind@).is_none() {
            Some(ConfigError::SipBind)
        } else if self.http.enabled && net::socket_of(self.http.bind@).is_none() {
            Some(ConfigError::HttpBind)
        } else if self.http.enabled && text::opt_text(self.http.token) == Some(
            Seq::<char>::empty(),
        ) {
            Some(ConfigError::HttpToken)
        } else if self.rtp.port_min >= self.rtp.port_max {
            Some(ConfigError::PortOrder)
        } else if self.rtp.port_min < 1024 {
            Some(ConfigError::PortMin)
        } else if !(96 <= self.rtp.dtmf_payload_type <= 127) {
            Some(ConfigError::DtmfPayloadType)
        } else if !ip_or_none(self.rtp.bind) {
            Some(ConfigError::RtpBind)
        } else if !ip_or_none(self.rtp.public_ip) {
            Some(ConfigError::RtpPublicIp)
        } else if self.sip.ring_timeout_secs == 0 {
            Some(ConfigError::RingTimeout)
        } else if !(1 <= self.audio.period_ms <= 200) {
            Some(ConfigError::PeriodMs)
        } else if !(8000 <= self.audio.rate <= 192_000) {
            Some(ConfigError::Rate)
        } else if !(2 <= self.audio.periods <= 32) {
            Some(ConfigError::Periods)
        } else if !tx_gain_ok {
            Some(ConfigError::TxGain)
        } else if !rx_gain_ok {
            Some(ConfigError::RxGain)
        } else if self.mms.enabled && self.mms.mmsc.is_none() {
            Some(ConfigError::Mmsc)
        } else if self.mms.enabled && self.mms.max_size == 0 {
            Some(ConfigError::MaxSize)
        } else if self.sip.register.is_some() && self.sip.register.unwrap().registrar@.len() == 0 {
            Some(ConfigError::Registrar)
        } else {
            None
        }
    }

    /// Check every rule, given whether each gain is in range.
    pub fn validate(&self, tx_gain_ok: bool, rx_gain_ok: bool) -> (r: Result<(), ConfigError>)
        ensures
            match r {
                Ok(_) => self.problem(tx_gain_ok, rx_gain_ok).is_none(),
                Err(e) => self.problem(tx_gain_ok, rx_gain_ok) == Some(e),
            },
    {
        if net::parse_socket(self.sip.bind.as_str()).is_none() {
            return Err(ConfigError::SipBind);
        }
        if self.http.enabled {
            // Checked here rather than where the API starts, where a typo would leave the process
            // running with no API while SIP kept handing out attachment URLs that point at it.
            if net::parse_socket(self.http.bind.as_str()).is_none() {
                return Err(ConfigError::HttpBind);
            }
            // An empty token would compare equal to what a request without authorization presents.
            if let Some(token) = &self.http.token {
                if token.as_str().is_empty() {
                    assert(token@ =~= Seq::<char>::empty());
                    return Err(ConfigError::HttpToken);
                }
            }
        }
        if self.rtp.port_min >= self.rtp.port_max {
            return Err(ConfigError::PortOrder);
        }
        if self.rtp.port_min < 1024 {
            return Err(ConfigError::PortMin);
        }
        if self.rtp.dtmf_payload_type < 96 || self.rtp.dtmf_payload_type > 127 {
            return Err(ConfigError::DtmfPayloadType);
        }
        if !check_ip(&self.rtp.bind) {
            return Err(ConfigError::RtpBind);
        }
        if !check_ip(&self.rtp.public_ip) {
            return Err(ConfigError::RtpPublicIp);
        }
        if self.sip.ring_timeout_secs == 0 {
            return Err(ConfigError::RingTimeout);
        }
        // The upper bounds are what keeps the ALSA period and buffer sizes inside a C long, which
        // may be 32 bits wide.
        if self.audio.period_ms < 1 || self.audio.period_ms > 200 {
            return Err(ConfigError::PeriodMs);
        }
        if self.audio.rate < 8000 || self.audio.rate > 192_000 {
            return Err(ConfigError::Rate);
        }
        if self.audio.periods < 2 || self.audio.periods > 32 {
            return Err(ConfigError::Periods);
        }
        if !tx_gain_ok {
            return Err(ConfigError::TxGain);
        }
        if !rx_gain_ok {
            return Err(ConfigError::RxGain);
        }
        if self.mms.enabled {
            if self.mms.mmsc.is_none() {
                return Err(ConfigError::Mmsc);
            }
            if self.mms.max_size == 0 {
                return Err(ConfigError::MaxSize);
            }
        }
        if let Some(up) = &self.sip.register {
            if up.registrar.as_str().is_empty() {
                return Err(ConfigError::Registrar);
            }
        }
        Ok(())
    }

    /// The address the SIP server binds to.
    pub fn sip_bind(&self) -> (r: SocketAddr)
        ensures
            r == match net::socket_of(self.sip.bind@) {
                Some(a) => a,
                None => (SocketAddr { ip: IpAddr::V4(0), port: 5060, scope: 0 }),
            },
    {
        match net::parse_socket(self.sip.bind.as_str()) {
            Some(a) => a,
            None => SocketAddr { ip: IpAddr::V4(0), port: 5060, scope: 0 },
        }
    }
}

/// A configuration is accepted exactly where everything it says can be done: the addresses are ones,
/// the numbers are within their bounds, and what is switched on has what it needs.
pub proof fn law_a_sound_configuration_is_accepted(c: Config, tx_gain_ok: bool, rx_gain_ok: bool)
    ensures
        c.problem(tx_gain_ok, rx_gain_ok).is_none() <==> {
            &&& net::socket_of(c.sip.bind@).is_some()
            &&& c.http.enabled ==> net::socket_of(c.http.bind@).is_some()
            &&& c.http.enabled ==> (c.http.token matches Some(t) ==> t@.len() > 0)
            &&& 1024 <= c.rtp.port_min < c.rtp.port_max
            &&& 96 <= c.rtp.dtmf_payload_type <= 127
            &&& c.rtp.bind matches Some(ip) ==> net::ip_of(ip@).is_some()
            &&& c.rtp.public_ip matches Some(ip) ==> net::ip_of(ip@).is_some()
            &&& c.sip.ring_timeout_secs > 0
            &&& 1 <= c.audio.period_ms <= 200
            &&& 8000 <= c.audio.rate <= 192_000
            &&& 2 <= c.audio.periods <= 32
            &&& tx_gain_ok && rx_gain_ok
            &&& c.mms.enabled ==> c.mms.mmsc.is_some() && c.mms.max_size > 0
            &&& c.sip.register matches Some(up) ==> up.registrar@.len() > 0
        },
{
    if let Some(t) = c.http.token {
        if t@.len() == 0 {
            assert(t@ =~= Seq::<char>::empty());
        }
    }
}

/// A path below a directory is behind it with a slash between the two; one that starts at the root is
/// where it says.
pub proof fn law_a_path_is_below_its_directory(dir: Seq<char>, p: Seq<char>)
    ensures
        p.len() > 0 && p[0] == '/' ==> path_below(dir, p) == p,
        !(p.len() > 0 && p[0] == '/') && dir.len() > 0 ==> path_below(dir, p).take(dir.len() as int)
            == dir && path_below(dir, p).skip(path_below(dir, p).len() - p.len()) == p
            && path_below(dir, p)[path_below(dir, p).len() - p.len() - 1] == '/'
            && path_below(dir, p).len() <= dir.len() + 1 + p.len(),
{
    reveal_strlit("/");
    let r = path_below(dir, p);
    if !(p.len() > 0 && p[0] == '/') && dir.len() > 0 {
        assert(r.take(dir.len() as int) =~= dir);
        assert(r.skip(r.len() - p.len()) =~= p);
    }
}

/// A configuration that is refused is refused for what is wrong with it.
pub proof fn law_a_refused_configuration_says_why(c: Config, tx_gain_ok: bool, rx_gain_ok: bool)
    ensures
        c.problem(tx_gain_ok, rx_gain_ok) matches Some(e) ==> match e {
            ConfigError::SipBind => net::socket_of(c.sip.bind@).is_none(),
            ConfigError::HttpBind => c.http.enabled && net::socket_of(c.http.bind@).is_none(),
            ConfigError::HttpToken => c.http.enabled && (c.http.token matches Some(t) && t@.len()
                == 0),
            ConfigError::PortOrder => c.rtp.port_min >= c.rtp.port_max,
            ConfigError::PortMin => c.rtp.port_min < 1024,
            ConfigError::DtmfPayloadType => c.rtp.dtmf_payload_type < 96 || c.rtp.dtmf_payload_type
                > 127,
            ConfigError::RtpBind => c.rtp.bind matches Some(ip) && net::ip_of(ip@).is_none(),
            ConfigError::RtpPublicIp => c.rtp.public_ip matches Some(ip) && net::ip_of(
                ip@,
            ).is_none(),
            ConfigError::RingTimeout => c.sip.ring_timeout_secs == 0,
            ConfigError::PeriodMs => c.audio.period_ms < 1 || c.audio.period_ms > 200,
            ConfigError::Rate => c.audio.rate < 8000 || c.audio.rate > 192_000,
            ConfigError::Periods => c.audio.periods < 2 || c.audio.periods > 32,
            ConfigError::TxGain => !tx_gain_ok,
            ConfigError::RxGain => !rx_gain_ok,
            ConfigError::Mmsc => c.mms.enabled && c.mms.mmsc.is_none(),
            ConfigError::MaxSize => c.mms.enabled && c.mms.max_size == 0,
            ConfigError::Registrar => c.sip.register matches Some(up) && up.registrar@.len() == 0,
        },
{
}

} // verus!
