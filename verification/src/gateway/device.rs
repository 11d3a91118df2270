//! Which sound devices and addresses a call uses.
use vstd::prelude::*;

use crate::audio::discovery::AlsaCard;
use crate::config::{Audio, Rtp};
use crate::net;
use crate::net::IpAddr;
use crate::sip::transport;
use crate::sip::transport::Transport;
use crate::text;

verus! {

// ------------------------------------------------------------------ sound devices

/// A name that alsa-lib understands, or the path of a sound device.
pub open spec fn is_alsa(port: Seq<char>) -> bool {
    text::has_prefix(port, "hw:"@) || text::has_prefix(port, "plughw:"@) || text::has_prefix(
        port,
        "default"@,
    ) || text::has_prefix(port, "/dev/snd/"@)
}

pub fn looks_like_alsa(port: &str) -> (r: bool)
    ensures
        r == is_alsa(port@),
{
    let c = text::chars_of(port);
    let p = c.as_slice();
    text::starts_with(p, "hw:") || text::starts_with(p, "plughw:") || text::starts_with(
        p,
        "default",
    ) || text::starts_with(p, "/dev/snd/")
}

/// How many digits a text begins with.
pub open spec fn digit_run(s: Seq<char>) -> int
    decreases s.len(),
{
    if s.len() > 0 && text::is_digit(s[0]) {
        1 + digit_run(s.skip(1))
    } else {
        0
    }
}

fn leading_digits(s: &[char]) -> (r: usize)
    ensures
        r == digit_run(s@),
        r <= s@.len(),
{
    let mut i: usize = 0;
    assert(s@.skip(0) =~= s@);
    while i < s.len() && text::digit(s[i])
        invariant
            i <= s@.len(),
            digit_run(s@) == i + digit_run(s@.skip(i as int)),
        decreases s@.len() - i,
    {
        assert(s@.skip(i as int).skip(1) =~= s@.skip(i + 1));
        i += 1;
    }
    i
}

/// The card and the device that the path of a sound device names: `pcmC1D0c` is device 0 of card 1,
/// and a device that is not named is device 0.
pub open spec fn pcm_numbers(port: Seq<char>) -> Option<(Seq<char>, Seq<char>)> {
    match text::after_prefix(port, "/dev/snd/pcmC"@) {
        Some(rest) => {
            let n = digit_run(rest);
            let after = rest.skip(n);
            let dev = if after.len() > 0 && after[0] == 'D' {
                after.skip(1).take(digit_run(after.skip(1)))
            } else {
                seq![]
            };
            if n == 0 {
                None
            } else {
                Some(
                    (
                        rest.take(n),
                        if dev.len() == 0 {
                            "0"@
                        } else {
                            dev
                        },
                    ),
                )
            }
        },
        None => None,
    }
}

pub open spec fn alsa_name(port: Seq<char>) -> Seq<char> {
    match pcm_numbers(port) {
        Some((card, dev)) => "plughw:"@ + card + ","@ + dev,
        None => port,
    }
}

pub fn normalise_alsa(port: &str) -> (r: String)
    ensures
        r@ == alsa_name(port@),
{
    let c = text::chars_of(port);
    if let Some(rest) = text::strip_prefix(c.as_slice(), "/dev/snd/pcmC") {
        let n = leading_digits(rest);
        if n > 0 {
            let mut out = text::owned("plughw:");
            out.append(text::string_of(text::take(rest, n)).as_str());
            out.append(",");
            let after = text::skip(rest, n);
            if after.len() > 0 && after[0] == 'D' {
                let dev = text::skip(after, 1);
                let m = leading_digits(dev);
                if m > 0 {
                    out.append(text::string_of(text::take(dev, m)).as_str());
                    return out;
                }
            }
            out.append("0");
            return out;
        }
    }
    text::owned(port)
}

pub open spec fn or_else(a: Option<Seq<char>>, b: Option<Seq<char>>) -> Option<Seq<char>> {
    match a {
        Some(_) => a,
        None => b,
    }
}

/// The port a call is played on, where the modem's word on it is taken and it is a sound device.
pub open spec fn reported_device(cfg: Audio, audio_port: Option<Seq<char>>) -> Option<Seq<char>> {
    match audio_port {
        Some(p) => if cfg.use_mm_audio_port && is_alsa(p) {
            Some(alsa_name(p))
        } else {
            None
        },
        None => None,
    }
}

/// The capture and the playback device of a call: the configured ones where both are, else the one
/// that the modem reports for the call, else the card that belongs to the modem.
pub open spec fn devices_of(
    cfg: Audio,
    card: Option<AlsaCard>,
    audio_port: Option<Seq<char>>,
) -> Option<(Seq<char>, Seq<char>)> {
    let device = text::opt_text(cfg.device);
    match (
        or_else(text::opt_text(cfg.capture_device), device),
        or_else(text::opt_text(cfg.playback_device), device),
    ) {
        (Some(c), Some(p)) => Some((c, p)),
        _ => match reported_device(cfg, audio_port) {
            Some(d) => Some((d, d)),
            None => match card {
                Some(k) => {
                    let d = "plughw"@ + ":"@ + k@.id + ",0"@;
                    Some((d, d))
                },
                None => None,
            },
        },
    }
}

/// No sound card belongs to the modem and none is configured.
#[derive(Debug, Clone, Copy, PartialEq, Eq, Structural)]
pub struct NoDevice;

impl NoDevice {
    pub fn message(&self) -> (r: &'static str)
        ensures
            r@
                == "no ALSA card is associated with this modem; set audio.device (e.g. \"plughw:1,0\")"@,
    {
        "no ALSA card is associated with this modem; set audio.device (e.g. \"plughw:1,0\")"
    }
}

fn first_of(a: &Option<String>, b: &Option<String>) -> (r: Option<String>)
    ensures
        text::opt_text(r) == or_else(text::opt_text(*a), text::opt_text(*b)),
{
    match a {
        Some(_) => text::copy_option(a),
        None => text::copy_option(b),
    }
}

/// Which ALSA devices to use for this call.
pub fn resolve_audio_devices(cfg: &Audio, card: &Option<AlsaCard>, audio_port: Option<&str>) -> (r:
    Result<(String, String), NoDevice>)
    ensures
        match r {
            Ok((c, p)) => devices_of(*cfg, *card, text::opt_str(audio_port)) == Some((c@, p@)),
            Err(_) => devices_of(*cfg, *card, text::opt_str(audio_port)).is_none(),
        },
{
    let capture = first_of(&cfg.capture_device, &cfg.device);
    let playback = first_of(&cfg.playback_device, &cfg.device);
    if let (Some(c), Some(p)) = (capture, playback) {
        return Ok((c, p));
    }
    if cfg.use_mm_audio_port {
        if let Some(port) = audio_port {
            if looks_like_alsa(port) {
                let dev = normalise_alsa(port);
                let again = text::owned(dev.as_str());
                return Ok((dev, again));
            }
        }
    }
    match card {
        Some(k) => {
            let dev = k.device_string(true);
            let again = text::owned(dev.as_str());
            Ok((dev, again))
        },
        None => Err(NoDevice),
    }
}

// ------------------------------------------------------------------ addresses of the media

/// A configured address.
pub open spec fn configured_ip(v: Option<Seq<char>>) -> Option<IpAddr> {
    match v {
        Some(s) => net::ip_of(s),
        None => None,
    }
}

fn parse_ip(v: &Option<String>) -> (r: Option<IpAddr>)
    ensures
        r == configured_ip(text::opt_text(*v)),
{
    match v {
        Some(s) => net::parse_ip(s.as_str()),
        None => None,
    }
}

/// The address to put in a description of our own media: the public one, the one the sockets are
/// bound to where it is a single one, and otherwise the one SIP advertises.
pub open spec fn media_ip(cfg: Rtp, sip_advertised: IpAddr) -> IpAddr {
    match configured_ip(text::opt_text(cfg.public_ip)) {
        Some(ip) => ip,
        None => match configured_ip(text::opt_text(cfg.bind)) {
            Some(ip) => if ip.unspecified() {
                sip_advertised
            } else {
                ip
            },
            None => sip_advertised,
        },
    }
}

/// The address to put in the SDP for our own media.
///
/// Not necessarily the one SIP is reachable on: pinning RTP to an interface is pointless if the peer
/// is still told to send it to wherever the signalling happened to arrive.
pub fn media_address(cfg: &Rtp, sip_advertised: IpAddr) -> (r: IpAddr)
    ensures
        r == media_ip(*cfg, sip_advertised),
{
    if let Some(ip) = parse_ip(&cfg.public_ip) {
        return ip;
    }
    match parse_ip(&cfg.bind) {
        // A wildcard bind says nothing about where to reach us.
        Some(ip) => if ip.is_unspecified() {
            sip_advertised
        } else {
            ip
        },
        None => sip_advertised,
    }
}

/// The address to advertise for the media towards a peer, given the source address the routing table
/// would use.
pub open spec fn rtp_advertised(cfg: Rtp, t: Transport, route: Option<IpAddr>) -> IpAddr {
    media_ip(cfg, transport::advertised(t, route))
}

pub fn rtp_advertised_ip(cfg: &Rtp, t: &Transport, route: Option<IpAddr>) -> (r: IpAddr)
    ensures
        r == rtp_advertised(*cfg, *t, route),
{
    media_address(cfg, t.advertised_ip(route))
}

/// The address to bind the media sockets to: the configured one, else the one SIP is bound to, else
/// the one we advertise, so that symmetric RTP works.
pub fn rtp_bind_ip(cfg: &Rtp, t: &Transport, route: Option<IpAddr>) -> (r: IpAddr)
    ensures
        r == match configured_ip(text::opt_text(cfg.bind)) {
            Some(ip) => ip,
            None => if t.bound.ip.unspecified() {
                transport::advertised(*t, route)
            } else {
                t.bound.ip
            },
        },
{
    if let Some(ip) = parse_ip(&cfg.bind) {
        return ip;
    }
    let bound = t.bound().ip;
    if bound.is_unspecified() {
        t.advertised_ip(route)
    } else {
        bound
    }
}

/// A peer is never told to send its media to a wildcard on account of how the sockets are bound.
pub proof fn law_a_wildcard_is_not_advertised(cfg: Rtp, sip_advertised: IpAddr)
    requires
        !sip_advertised.unspecified(),
        configured_ip(text::opt_text(cfg.public_ip)).is_none(),
    ensures
        !media_ip(cfg, sip_advertised).unspecified(),
{
}

} // verus!
