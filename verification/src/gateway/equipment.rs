//! Which devices and addresses the audio of a call goes through.
use vstd::prelude::*;

use crate::audio::discovery::AlsaCard;
use crate::config::{Audio, Rtp};
use crate::net;
use crate::net::IpAddr;
use crate::sip::transport;
use crate::sip::transport::Transport;
use crate::text;
use super::device;

verus! {

proof fn lemma_digit_run(d: Seq<char>, rest: Seq<char>)
    requires
        forall|i: int| 0 <= i < d.len() ==> text::is_digit(#[trigger] d[i]),
        rest.len() > 0 ==> !text::is_digit(rest[0]),
    ensures
        device::digit_run(d + rest) == d.len(),
    decreases d.len(),
{
    let s = d + rest;
    if d.len() > 0 {
        assert(s[0] == d[0]);
        assert(s.skip(1) =~= d.skip(1) + rest);
        lemma_digit_run(d.skip(1), rest);
    } else {
        assert(s =~= rest);
    }
}

/// A device file of the sound system is opened by the numbers of its card and its device; every other
/// name is opened as it is.
pub proof fn law_a_device_file_names_its_card(card: nat, dev: nat, direction: char)
    requires
        !text::is_digit(direction),
    ensures
        device::alsa_name(
            "/dev/snd/pcmC"@ + (text::dec(card) + (seq!['D'] + (text::dec(dev) + seq![direction]))),
        ) == "plughw:"@ + text::dec(card) + ","@ + text::dec(dev),
{
    let c = text::dec(card);
    let d = text::dec(dev);
    text::lemma_dec_reads_back(card);
    text::lemma_dec_reads_back(dev);
    let tail = seq!['D'] + (d + seq![direction]);
    let rest = c + tail;
    let port = "/dev/snd/pcmC"@ + rest;
    assert(port.take("/dev/snd/pcmC"@.len() as int) =~= "/dev/snd/pcmC"@);
    assert(port.skip("/dev/snd/pcmC"@.len() as int) =~= rest);
    lemma_digit_run(c, tail);
    assert(rest.skip(c.len() as int) =~= tail);
    assert(rest.take(c.len() as int) =~= c);
    assert(tail.skip(1) =~= d + seq![direction]);
    lemma_digit_run(d, seq![direction]);
    assert((d + seq![direction]).take(d.len() as int) =~= d);
}

/// The devices that are configured come first, each side of its own or both by one; then the one that
/// the modem reports, where that is wanted and is one of the sound system; then the card that was
/// found. Without any of these there is none.
pub proof fn law_configured_devices_come_first(
    cfg: Audio,
    card: Option<AlsaCard>,
    port: Option<Seq<char>>,
)
    ensures
        cfg.capture_device.is_some() && cfg.playback_device.is_some() ==> device::devices_of(
            cfg,
            card,
            port,
        ) == Some((cfg.capture_device.unwrap()@, cfg.playback_device.unwrap()@)),
        cfg.device.is_some() && cfg.capture_device.is_none() && cfg.playback_device.is_none()
            ==> device::devices_of(cfg, card, port) == Some(
            (cfg.device.unwrap()@, cfg.device.unwrap()@),
        ),
        cfg.device.is_some() && cfg.capture_device.is_some() && cfg.playback_device.is_none()
            ==> device::devices_of(cfg, card, port) == Some(
            (cfg.capture_device.unwrap()@, cfg.device.unwrap()@),
        ),
        cfg.device.is_some() && cfg.capture_device.is_none() && cfg.playback_device.is_some()
            ==> device::devices_of(cfg, card, port) == Some(
            (cfg.device.unwrap()@, cfg.playback_device.unwrap()@),
        ),
        cfg.device.is_none() && (cfg.capture_device.is_none() || cfg.playback_device.is_none()) ==> {
            &&& port matches Some(p) ==> (cfg.use_mm_audio_port && device::is_alsa(p)
                ==> device::devices_of(cfg, card, port) == Some(
                (device::alsa_name(p), device::alsa_name(p)),
            ))
            &&& port.is_none() || !cfg.use_mm_audio_port ==> match card {
                Some(k) => device::devices_of(cfg, card, port) == Some(
                    ("plughw"@ + ":"@ + k@.id + ",0"@, "plughw"@ + ":"@ + k@.id + ",0"@),
                ),
                None => device::devices_of(cfg, card, port).is_none(),
            }
        },
{
}

/// The address that peers are told is the public one where one is configured, else the one that media
/// are bound to where that is one, else the one that the SIP side is reached at: the public one, the one
/// it is bound to, or the one that the route to the peer leaves from.
pub proof fn law_peers_are_told_a_public_address(
    cfg: Rtp,
    t: Transport,
    route: Option<IpAddr>,
    ip: IpAddr,
)
    ensures
        (cfg.public_ip matches Some(s) && net::ip_of(s@) == Some(ip)) ==> device::rtp_advertised(
            cfg,
            t,
            route,
        ) == ip,
        cfg.public_ip.is_none() && (cfg.bind matches Some(s) && net::ip_of(s@) == Some(ip)) && ip
            != IpAddr::V4(0) && ip != IpAddr::V6(0) ==> device::rtp_advertised(cfg, t, route) == ip,
        cfg.public_ip.is_none() && cfg.bind.is_none() ==> device::rtp_advertised(cfg, t, route)
            == transport::advertised(t, route),
        t.public_ip == Some(ip) ==> transport::advertised(t, route) == ip,
        t.public_ip.is_none() && t.bound.ip != IpAddr::V4(0) && t.bound.ip != IpAddr::V6(0)
            ==> transport::advertised(t, route) == t.bound.ip,
        t.public_ip.is_none() && (t.bound.ip == IpAddr::V4(0) || t.bound.ip == IpAddr::V6(0))
            && route == Some(ip) ==> transport::advertised(t, route) == ip,
{
}

} // verus!
