//! RTP for one call.
//!
//! Narrow band only: G.711 at 8 kHz, 20 ms packets, plus RFC 2833 digit reception. The ring buffers
//! double as the jitter buffer - the playback side drains them at a constant rate, which is exactly
//! the behaviour a jitter buffer needs.
use vstd::prelude::*;

use crate::audio::alsa_io;
use crate::audio::alsa_io::AudioRings;
use crate::audio::codec;
use crate::audio::codec::Law;
use crate::net::SocketAddr;
use crate::sip::auth;
use crate::sip::sdp::Codec;

verus! {

/// How a call's media is handled.
#[derive(Debug, Clone, Copy)]
pub struct MediaConfig {
    pub codec: Codec,
    pub dtmf_payload_type: Option<u8>,
    pub ptime_ms: u32,
    pub jitter_ms: u32,
    pub symmetric: bool,
    /// Watch the audio coming from the mobile network for DTMF tones. The modem's own signal for
    /// them is not reliable, so the tones are detected in the audio instead.
    pub detect_inband_dtmf: bool,
}

/// The companding of a codec.
pub fn law_of(codec: Codec) -> (r: Law)
    ensures
        r == match codec {
            Codec::Pcmu => Law::Ulaw,
            Codec::Pcma => Law::Alaw,
        },
{
    match codec {
        Codec::Pcmu => Law::Ulaw,
        Codec::Pcma => Law::Alaw,
    }
}

// ------------------------------------------------------------------ ports

/// `rand`'s `thread_rng().gen_range(0..slots)`: some number below `slots`, whichever it is. The
/// range must not be empty.
#[verifier::external_body]
fn random_below(slots: u32) -> (r: u32)
    requires
        slots > 0,
    ensures
        r < slots,
{
    rand::Rng::gen_range(&mut rand::thread_rng(), 0..slots)
}

/// The even ports whose odd RTCP partner is also in a range.
#[derive(Debug, Clone, Copy, PartialEq, Eq, Structural)]
pub struct PortRange {
    pub first: u16,
    pub last: u16,
}

/// A port that can be bound for RTP: even, and in range with the next one.
pub open spec fn is_rtp_port(port: int, min: u16, max: u16) -> bool {
    port % 2 == 0 && min <= port && port + 1 <= max
}

impl PortRange {
    pub open spec fn wf(&self) -> bool {
        self.first <= self.last && self.first % 2 == 0 && self.last % 2 == 0
    }

    pub open spec fn size(&self) -> nat {
        ((self.last - self.first) / 2 + 1) as nat
    }

    /// The range of ports to bind, unless no pair fits.
    pub fn new(min: u16, max: u16) -> (r: Option<PortRange>)
        ensures
            match r {
                Some(p) => p.wf() && forall|port: int|
                    #![trigger is_rtp_port(port, min, max)]
                    is_rtp_port(port, min, max) <==> p.first <= port <= p.last && port % 2 == 0,
                None => forall|port: int| !#[trigger] is_rtp_port(port, min, max),
            },
    {
        if min == 0xffff {
            return None;
        }
        let first = if min % 2 == 0 {
            min
        } else {
            min + 1
        };
        if max == 0 {
            return None;
        }
        let m = max - 1;
        if m < first {
            return None;
        }
        Some(
            PortRange {
                first,
                last: if m % 2 == 0 {
                    m
                } else {
                    m - 1
                },
            },
        )
    }

    pub fn slots(&self) -> (r: u32)
        requires
            self.wf(),
        ensures
            r == self.size(),
            r > 0,
    {
        ((self.last - self.first) / 2) as u32 + 1
    }

    /// The port in a slot.
    pub fn port(&self, slot: u32) -> (r: u16)
        requires
            self.wf(),
            slot < self.size(),
        ensures
            r == self.first + 2 * slot,
            self.first <= r <= self.last,
            r % 2 == 0,
    {
        self.first + 2 * (slot as u16)
    }

    /// The port to try after a busy one, wrapping round at the end.
    pub fn next(&self, port: u16) -> (r: u16)
        requires
            self.wf(),
            self.first <= port <= self.last,
            port % 2 == 0,
        ensures
            r == if port >= self.last {
                self.first as int
            } else {
                port + 2
            },
            self.first <= r <= self.last,
            r % 2 == 0,
    {
        if port >= self.last {
            self.first
        } else {
            port + 2
        }
    }

    /// A port to start from, any of them.
    pub fn start(&self) -> (r: u16)
        requires
            self.wf(),
        ensures
            self.first <= r <= self.last,
            r % 2 == 0,
    {
        let n = random_below(self.slots());
        self.port(n)
    }
}

pub open spec fn next_port(p: PortRange, port: int) -> int {
    if port >= p.last {
        p.first as int
    } else {
        port + 2
    }
}

/// The port that is tried after a number of busy ones.
pub open spec fn nth_port(p: PortRange, start: int, n: nat) -> int
    decreases n,
{
    if n == 0 {
        start
    } else {
        next_port(p, nth_port(p, start, (n - 1) as nat))
    }
}

proof fn lemma_nth_port(p: PortRange, start: int, n: nat)
    requires
        p.wf(),
        p.first <= start <= p.last,
        start % 2 == 0,
        n < p.size(),
    ensures
        nth_port(p, start, n) == if start + 2 * n <= p.last {
            start + 2 * n
        } else {
            start + 2 * n - 2 * p.size()
        },
    decreases n,
{
    if n > 0 {
        lemma_nth_port(p, start, (n - 1) as nat);
    }
}

/// Walking from any port tries every port of the range exactly once.
pub proof fn law_every_port_is_tried(p: PortRange, start: int, port: int)
    requires
        p.wf(),
        p.first <= start <= p.last,
        start % 2 == 0,
        p.first <= port <= p.last,
        port % 2 == 0,
    ensures
        exists|n: nat| n < p.size() && #[trigger] nth_port(p, start, n) == port,
        forall|n: nat, m: nat|
            n < p.size() && m < p.size() && #[trigger] nth_port(p, start, n) == port
                && #[trigger] nth_port(p, start, m) == port ==> n == m,
{
    let n = (if port >= start {
        (port - start) / 2
    } else {
        (port - start) / 2 + p.size()
    }) as nat;
    lemma_nth_port(p, start, n);
    assert(nth_port(p, start, n) == port);
    assert forall|n: nat, m: nat|
        n < p.size() && m < p.size() && #[trigger] nth_port(p, start, n) == port
            && #[trigger] nth_port(p, start, m) == port implies n == m by {
        lemma_nth_port(p, start, n);
        lemma_nth_port(p, start, m);
    }
}

// ------------------------------------------------------------------ sending

pub open spec fn two_bytes(n: u16) -> Seq<u8> {
    seq![(n / 256) as u8, (n % 256) as u8]
}

pub open spec fn four_bytes(n: u32) -> Seq<u8> {
    seq![
        (n / 0x100_0000) as u8,
        (n / 0x1_0000 % 256) as u8,
        (n / 256 % 256) as u8,
        (n % 256) as u8,
    ]
}

/// An RTP packet without extensions.
pub open spec fn rtp_packet(
    marker: bool,
    payload_type: u8,
    seq: u16,
    timestamp: u32,
    ssrc: u32,
    payload: Seq<u8>,
) -> Seq<u8> {
    seq![
        0x80u8,
        if marker {
            (payload_type + 128) as u8
        } else {
            payload_type
        },
    ] + two_bytes(seq) + four_bytes(timestamp) + four_bytes(ssrc) + payload
}

/// The sending side of a stream.
#[derive(Debug, Clone, Copy, PartialEq, Eq, Structural)]
pub struct RtpSender {
    pub seq: u16,
    pub timestamp: u32,
    pub ssrc: u32,
    pub payload_type: u8,
    pub samples_per_packet: u32,
    /// The first packet carries the marker.
    pub marker: bool,
}

/// The packet that a stream sends next.
pub open spec fn packed(s: RtpSender, payload: Seq<u8>) -> Seq<u8> {
    rtp_packet(s.marker, s.payload_type, s.seq, s.timestamp, s.ssrc, payload)
}

/// A stream that has sent a packet.
pub open spec fn advanced(s: RtpSender) -> RtpSender {
    RtpSender {
        marker: false,
        seq: ((s.seq + 1) % 0x1_0000) as u16,
        timestamp: ((s.timestamp + s.samples_per_packet) % 0x1_0000_0000) as u32,
        ..s
    }
}

impl RtpSender {
    pub open spec fn wf(&self) -> bool {
        self.payload_type < 128
    }

    /// A stream that starts at random, with packets of a duration.
    pub fn new(payload_type: u8, ptime_ms: u32) -> (r: Self)
        requires
            payload_type < 128,
            8 * ptime_ms <= u32::MAX,
        ensures
            r.wf(),
            r.marker,
            r.payload_type == payload_type,
            r.samples_per_packet == 8 * ptime_ms,
    {
        RtpSender {
            seq: random_u16(),
            timestamp: random_u32(),
            ssrc: random_u32(),
            payload_type,
            samples_per_packet: 8 * ptime_ms,
            marker: true,
        }
    }

    /// The next packet of the stream.
    pub fn packet(&mut self, payload: &[u8]) -> (r: Vec<u8>)
        requires
            old(self).wf(),
        ensures
            final(self).wf(),
            r@ == packed(*old(self), payload@),
            *final(self) == advanced(*old(self)),
    {
        let mut out: Vec<u8> = Vec::new();
        out.push(0x80);
        out.push(
            if self.marker {
                self.payload_type + 128
            } else {
                self.payload_type
            },
        );
        out.push((self.seq / 256) as u8);
        out.push((self.seq % 256) as u8);
        push_u32(&mut out, self.timestamp);
        push_u32(&mut out, self.ssrc);
        let mut i: usize = 0;
        let ghost head = out@;
        assert(head =~= rtp_packet(
            self.marker,
            self.payload_type,
            self.seq,
            self.timestamp,
            self.ssrc,
            seq![],
        ));
        while i < payload.len()
            invariant
                i <= payload@.len(),
                out@ =~= head + payload@.take(i as int),
            decreases payload@.len() - i,
        {
            out.push(payload[i]);
            i += 1;
        }
        assert(payload@.take(i as int) =~= payload@);
        assert(out@ =~= rtp_packet(
            self.marker,
            self.payload_type,
            self.seq,
            self.timestamp,
            self.ssrc,
            payload@,
        ));
        self.marker = false;
        self.seq = if self.seq == 0xffff {
            0
        } else {
            self.seq + 1
        };
        self.timestamp = ((self.timestamp as u64 + self.samples_per_packet as u64)
            % 0x1_0000_0000) as u32;
        out
    }
}

fn push_u32(out: &mut Vec<u8>, n: u32)
    ensures
        final(out)@ == old(out)@ + four_bytes(n),
{
    out.push((n / 0x100_0000) as u8);
    out.push((n / 0x1_0000 % 256) as u8);
    out.push((n / 256 % 256) as u8);
    out.push((n % 256) as u8);
    assert(out@ =~= old(out)@ + four_bytes(n));
}

fn random_u16() -> (r: u16) {
    auth::random_byte() as u16 * 256 + auth::random_byte() as u16
}

fn random_u32() -> (r: u32) {
    random_u16() as u32 * 0x1_0000 + random_u16() as u32
}

/// A place that audio may be sent to. A held or rejected stream signals 0.0.0.0:0, which the kernel
/// would happily turn into loopback and get sprayed with call audio.
pub fn can_send_to(dest: SocketAddr) -> (r: bool)
    ensures
        r == (dest.port != 0 && !dest.ip.unspecified()),
{
    dest.port != 0 && !dest.ip.is_unspecified()
}

// ------------------------------------------------------------------ receiving

/// The audio or event in an RTP packet.
pub struct Packet {
    pub payload_type: u8,
    pub timestamp: u32,
    pub payload: Seq<u8>,
}

/// A datagram with an RTP header.
pub open spec fn has_rtp_header(d: Seq<u8>) -> bool {
    d.len() >= 12 && d[0] / 64 == 2
}

/// Where the payload starts: behind the contributing sources and the extension; none where the
/// extension is cut off.
pub open spec fn payload_start(d: Seq<u8>) -> Option<int> {
    let after_sources = 12 + 4 * (d[0] % 16) as int;
    if d[0] / 16 % 2 == 1 {
        if d.len() < after_sources + 4 {
            None
        } else {
            Some(
                after_sources + 4 + 4 * (d[after_sources + 2] as int * 256 + d[after_sources
                    + 3] as int),
            )
        }
    } else {
        Some(after_sources)
    }
}

/// The packet in a datagram with an RTP header. The last byte of a padded packet says how much of
/// the tail is padding; decoding it would put a click in the audio on every packet.
pub open spec fn packet_of(d: Seq<u8>) -> Option<Packet> {
    match payload_start(d) {
        Some(start) => {
            let pad = if d[0] / 32 % 2 == 1 {
                d.last() as int
            } else {
                0
            };
            if start >= d.len() || (d[0] / 32 % 2 == 1 && pad == 0) || pad > d.len() - start {
                None
            } else {
                Some(
                    Packet {
                        payload_type: (d[1] % 128) as u8,
                        timestamp: (d[4] as int * 0x100_0000 + d[5] as int * 0x1_0000 + d[6] as int
                            * 256 + d[7] as int) as u32,
                        payload: d.subrange(start, d.len() - pad),
                    },
                )
            }
        },
        None => None,
    }
}

/// The key of a telephone event (RFC 2833).
pub open spec fn event_key(event: u8) -> Option<char> {
    if event < 16 {
        Some(
            seq![
                '0', '1', '2', '3', '4', '5', '6', '7', '8', '9', '*', '#', 'A', 'B', 'C', 'D',
            ][event as int],
        )
    } else {
        None
    }
}

pub fn dtmf_char(event: u8) -> (r: Option<char>)
    ensures
        r == event_key(event),
{
    match event {
        0 => Some('0'),
        1 => Some('1'),
        2 => Some('2'),
        3 => Some('3'),
        4 => Some('4'),
        5 => Some('5'),
        6 => Some('6'),
        7 => Some('7'),
        8 => Some('8'),
        9 => Some('9'),
        10 => Some('*'),
        11 => Some('#'),
        12 => Some('A'),
        13 => Some('B'),
        14 => Some('C'),
        15 => Some('D'),
        _ => None,
    }
}

/// The receiving side of a stream.
#[derive(Debug, Clone, Copy, PartialEq, Eq, Structural)]
pub struct RtpReceiver {
    /// Where audio is sent to.
    pub remote: SocketAddr,
    /// Where the signalling says the peer is. Separate from `remote`, which symmetric RTP overwrites
    /// with the observed source: the receiver has to keep checking against what was signalled.
    pub signalled: SocketAddr,
    /// Whether the receiver has latched onto the address the packets actually come from.
    pub latched: bool,
    /// When the peer was last heard, in milliseconds since the session started.
    pub last_rtp_ms: u32,
    /// The timestamp of the last telephone event.
    pub last_event: Option<u32>,
    pub payload_type: u8,
    pub event_type: Option<u8>,
    pub symmetric: bool,
}

/// What a datagram brought.
#[derive(Debug, PartialEq, Eq)]
pub enum Received {
    Nothing,
    Digit(char),
    /// Audio to decode: the payload.
    Audio(Vec<u8>),
}

/// What a datagram brought, mathematically.
pub enum Brought {
    Nothing,
    Digit(char),
    Audio(Seq<u8>),
}

impl View for Received {
    type V = Brought;

    open spec fn view(&self) -> Brought {
        match *self {
            Received::Nothing => Brought::Nothing,
            Received::Digit(c) => Brought::Digit(c),
            Received::Audio(b) => Brought::Audio(b@),
        }
    }
}

/// Only the host the signalling named gets to be heard. The port is allowed to differ - that is what
/// makes RTP work behind NAT - but a completely unrelated host must not be able to take over the call
/// audio by winning a race with the peer's first packet.
pub open spec fn is_heard(r: RtpReceiver, src: SocketAddr) -> bool {
    r.signalled.ip.unspecified() || src.ip == r.signalled.ip
}

/// The receiver once RTP came from a source: the peer is alive, whether or not its payload can be
/// decoded, and with symmetric RTP it is answered where it actually turned out to be.
pub open spec fn heard_from(r: RtpReceiver, src: SocketAddr, now_ms: u32) -> RtpReceiver {
    RtpReceiver {
        last_rtp_ms: now_ms,
        remote: if r.symmetric && !r.latched && src != r.signalled {
            src
        } else {
            r.remote
        },
        latched: r.latched || r.symmetric,
        ..r
    }
}

/// A packet that starts a telephone event. The first packet of an event counts rather than the end
/// packet - that one is the likeliest of the burst to be lost.
pub open spec fn starts_event(r: RtpReceiver, p: Packet) -> bool {
    r.event_type == Some(p.payload_type) && p.payload.len() >= 4 && r.last_event != Some(
        p.timestamp,
    )
}

pub open spec fn brought(r: RtpReceiver, d: Seq<u8>, src: SocketAddr) -> Brought {
    if !is_heard(r, src) || !has_rtp_header(d) {
        Brought::Nothing
    } else {
        match packet_of(d) {
            Some(p) => if r.event_type == Some(p.payload_type) {
                match event_key(p.payload[0]) {
                    Some(c) => if starts_event(r, p) {
                        Brought::Digit(c)
                    } else {
                        Brought::Nothing
                    },
                    None => Brought::Nothing,
                }
            } else if p.payload_type == r.payload_type {
                Brought::Audio(p.payload)
            } else {
                Brought::Nothing
            },
            None => Brought::Nothing,
        }
    }
}

pub open spec fn after_datagram(r: RtpReceiver, d: Seq<u8>, src: SocketAddr, now_ms: u32) ->
    RtpReceiver {
    if !is_heard(r, src) || !has_rtp_header(d) {
        r
    } else {
        let h = heard_from(r, src, now_ms);
        match packet_of(d) {
            Some(p) => if starts_event(r, p) {
                RtpReceiver { last_event: Some(p.timestamp), ..h }
            } else {
                h
            },
            None => h,
        }
    }
}

/// Where the payload lies in a datagram with an RTP header.
fn payload_range(d: &[u8]) -> (r: Option<(usize, usize)>)
    requires
        has_rtp_header(d@),
    ensures
        match (r, packet_of(d@)) {
            (Some((a, b)), Some(p)) => a <= b <= d@.len() && p.payload == d@.subrange(
                a as int,
                b as int,
            ),
            (None, None) => true,
            _ => false,
        },
{
    let len = d.len();
    let mut start: usize = 12 + 4 * (d[0] % 16) as usize;
    if d[0] / 16 % 2 == 1 {
        if len < start + 4 {
            return None;
        }
        let words = d[start + 2] as usize * 256 + d[start + 3] as usize;
        start = start + 4 + 4 * words;
    }
    if start >= len {
        return None;
    }
    if d[0] / 32 % 2 == 1 {
        let pad = d[len - 1] as usize;
        if pad == 0 || pad > len - start {
            return None;
        }
        Some((start, len - pad))
    } else {
        Some((start, len))
    }
}

impl RtpReceiver {
    /// A receiver for a peer at a signalled address.
    pub fn new(
        remote: SocketAddr,
        payload_type: u8,
        event_type: Option<u8>,
        symmetric: bool,
    ) -> (r: Self)
        ensures
            r == (RtpReceiver {
                remote,
                signalled: remote,
                latched: false,
                last_rtp_ms: 0,
                last_event: None,
                payload_type,
                event_type,
                symmetric,
            }),
    {
        RtpReceiver {
            remote,
            signalled: remote,
            latched: false,
            last_rtp_ms: 0,
            last_event: None,
            payload_type,
            event_type,
            symmetric,
        }
    }

    /// Take a datagram that arrived at a time, in milliseconds since the session started.
    pub fn on_datagram(&mut self, d: &[u8], src: SocketAddr, now_ms: u32) -> (r: Received)
        ensures
            r@ == brought(*old(self), d@, src),
            *final(self) == after_datagram(*old(self), d@, src, now_ms),
    {
        if !(self.signalled.ip.is_unspecified() || src.ip == self.signalled.ip) {
            return Received::Nothing;
        }
        if d.len() < 12 || d[0] / 64 != 2 {
            return Received::Nothing;
        }
        let before = *self;
        self.last_rtp_ms = now_ms;
        if self.symmetric && !self.latched {
            if src != self.signalled {
                self.remote = src;
            }
            self.latched = true;
        }
        assert(*self == heard_from(before, src, now_ms));
        let (a, b) = match payload_range(d) {
            Some(x) => x,
            None => {
                return Received::Nothing;
            },
        };
        let pt = d[1] % 128;
        let payload = vstd::slice::slice_subrange(d, a, b);
        let is_event = match self.event_type {
            Some(e) => e == pt,
            None => false,
        };
        if is_event {
            let timestamp = d[4] as u32 * 0x100_0000 + d[5] as u32 * 0x1_0000 + d[6] as u32 * 256
                + d[7] as u32;
            let repeated = match self.last_event {
                Some(t) => t == timestamp,
                None => false,
            };
            if payload.len() >= 4 && !repeated {
                self.last_event = Some(timestamp);
                return match dtmf_char(payload[0]) {
                    Some(c) => Received::Digit(c),
                    None => Received::Nothing,
                };
            }
            return Received::Nothing;
        }
        if pt != self.payload_type {
            // Comfort noise (13) and anything else we do not handle.
            return Received::Nothing;
        }
        Received::Audio(vstd::slice::slice_to_vec(payload))
    }

    /// Point the session at a new destination (re-INVITE / late SDP).
    ///
    /// The receiver only accepts audio from the host the signalling named, so a peer that re-homes
    /// its media has to move that expectation too. Moving to a different host also clears the
    /// symmetric-RTP latch, so the new endpoint's own source port can be learned.
    pub fn set_remote(&mut self, addr: SocketAddr)
        ensures
            *final(self) == (RtpReceiver {
                remote: addr,
                signalled: addr,
                latched: old(self).latched && old(self).signalled.ip == addr.ip,
                ..*old(self)
            }),
    {
        if self.signalled.ip != addr.ip {
            self.latched = false;
        }
        self.signalled = addr;
        self.remote = addr;
    }

    /// How long the peer has been silent at the RTP level, in milliseconds, counting from the
    /// session start while nothing has arrived at all.
    ///
    /// A SIP peer that dies without a BYE leaves the mobile leg connected and billed for as long as
    /// the process runs, because nothing else on either side ever notices. Its RTP stops
    /// immediately, so that is what is watched.
    pub fn silence(&self, now_ms: u32) -> (r: u32)
        ensures
            r == if now_ms > self.last_rtp_ms {
                now_ms - self.last_rtp_ms
            } else {
                0
            },
    {
        if now_ms > self.last_rtp_ms {
            now_ms - self.last_rtp_ms
        } else {
            0
        }
    }

    /// Treat the peer as having just been heard from.
    ///
    /// The silence that built up while the stream was on hold, or while the peer was moving its
    /// media, is not evidence that it has gone away now that it is talking again.
    pub fn reset_silence(&mut self, now_ms: u32)
        ensures
            *final(self) == (RtpReceiver { last_rtp_ms: now_ms, ..*old(self) }),
    {
        self.last_rtp_ms = now_ms;
    }
}

/// The time since a session started, in whole milliseconds, up to what 32 bits hold: 49 days.
pub fn session_ms(elapsed_ms: u64) -> (r: u32)
    ensures
        r == if elapsed_ms > u32::MAX {
            u32::MAX as u64
        } else {
            elapsed_ms
        },
{
    if elapsed_ms > 0xffff_ffff {
        0xffff_ffff
    } else {
        elapsed_ms as u32
    }
}

/// A host that the signalling did not name changes nothing and is not heard.
pub proof fn law_strangers_are_not_heard(
    r: RtpReceiver,
    d: Seq<u8>,
    src: SocketAddr,
    now_ms: u32,
)
    requires
        !r.signalled.ip.unspecified(),
        src.ip != r.signalled.ip,
    ensures
        after_datagram(r, d, src, now_ms) == r,
        brought(r, d, src) is Nothing,
{
}

/// Audio is redirected at most once after the signalling spoke, and only to the host it named.
pub proof fn law_the_latch_closes(
    r: RtpReceiver,
    d: Seq<u8>,
    e: Seq<u8>,
    src: SocketAddr,
    other: SocketAddr,
    t0: u32,
    t1: u32,
)
    requires
        !r.signalled.ip.unspecified(),
        has_rtp_header(d),
        is_heard(r, src),
        r.symmetric,
        r.remote.ip == r.signalled.ip,
    ensures
        after_datagram(r, d, src, t0).remote.ip == r.signalled.ip,
        after_datagram(after_datagram(r, d, src, t0), e, other, t1).remote == after_datagram(
            r,
            d,
            src,
            t0,
        ).remote,
{
}

proof fn lemma_four_bytes(n: u32)
    ensures
        four_bytes(n).len() == 4,
        four_bytes(n)[0] as int * 0x100_0000 + four_bytes(n)[1] as int * 0x1_0000 + four_bytes(
            n,
        )[2] as int * 256 + four_bytes(n)[3] as int == n,
{
}

proof fn lemma_first_byte(b: u8)
    requires
        b == 0x80,
    ensures
        b / 64 == 2,
        b % 16 == 0,
        b / 16 % 2 == 0,
        b / 32 % 2 == 0,
{
}

/// What a sender packs, a receiver finds: the payload of a packet comes back.
pub proof fn law_a_packet_is_read_back(
    marker: bool,
    payload_type: u8,
    seq: u16,
    timestamp: u32,
    ssrc: u32,
    payload: Seq<u8>,
)
    requires
        payload_type < 128,
        payload.len() > 0,
    ensures
        ({
            let d = rtp_packet(marker, payload_type, seq, timestamp, ssrc, payload);
            &&& has_rtp_header(d)
            &&& packet_of(d) matches Some(p) && p.payload == payload && p.payload_type
                == payload_type && p.timestamp == timestamp
        }),
{
    let d = rtp_packet(marker, payload_type, seq, timestamp, ssrc, payload);
    let second = if marker {
        (payload_type + 128) as u8
    } else {
        payload_type
    };
    let t = four_bytes(timestamp);
    lemma_four_bytes(timestamp);
    lemma_first_byte(d[0]);
    assert(d.len() == 12 + payload.len());
    assert(d[1] == second && second % 128 == payload_type);
    assert(d[4] == t[0]);
    assert(d[5] == t[1]);
    assert(d[6] == t[2]);
    assert(d[7] == t[3]);
    assert(payload_start(d) == Some(12int));
    assert(d.subrange(12, d.len() as int) =~= payload);
}

// ------------------------------------------------------------------ digits

/// Frames that a digit must last: 60 ms. A real digit lasts at least 40 ms and usually far longer;
/// two frames turned out to be short enough for a network announcement to trip it.
pub const DTMF_FRAMES: u8 = 3;

/// Frames for which the detector is ignored after a tone was played: half a second.
pub const DTMF_GUARD: u8 = 25;

/// Tells digits from what the detector finds in each frame.
#[derive(Debug, Clone, Copy, PartialEq, Eq, Structural)]
pub struct DigitWatch {
    pub candidate: Option<char>,
    pub streak: u8,
    pub reported: Option<char>,
    pub gap: u8,
    pub guard: u8,
}

pub open spec fn one_more(n: u8) -> u8 {
    if n == 255 {
        255
    } else {
        (n + 1) as u8
    }
}

/// While a digit is played towards the modem, and for a while after, the detector is ignored: the
/// modem's sidetone would otherwise echo our own tone straight back.
pub open spec fn guarded(w: DigitWatch, tone_pending: bool) -> DigitWatch {
    DigitWatch {
        guard: if tone_pending {
            DTMF_GUARD
        } else if w.guard > 0 {
            (w.guard - 1) as u8
        } else {
            0
        },
        ..w
    }
}

/// The watch after a frame, the guard aside.
pub open spec fn watched(w: DigitWatch, detected: Option<char>) -> DigitWatch {
    match detected {
        Some(d) => {
            let streak = if w.candidate == Some(d) {
                one_more(w.streak)
            } else {
                1
            };
            DigitWatch {
                candidate: Some(d),
                streak,
                gap: 0,
                reported: if streak >= DTMF_FRAMES {
                    Some(d)
                } else {
                    w.reported
                },
                ..w
            }
        },
        None => if one_more(w.gap) >= 2 {
            DigitWatch {
                candidate: None,
                streak: 0,
                reported: None,
                gap: one_more(w.gap),
                ..w
            }
        } else {
            DigitWatch { gap: one_more(w.gap), ..w }
        },
    }
}

/// The digit to report after a frame.
pub open spec fn reported_by(w: DigitWatch, detected: Option<char>) -> Option<char> {
    match detected {
        Some(d) => if watched(w, detected).streak >= DTMF_FRAMES && w.reported != Some(d) {
            Some(d)
        } else {
            None
        },
        None => None,
    }
}

impl DigitWatch {
    pub fn new() -> (r: Self)
        ensures
            r == (DigitWatch { candidate: None, streak: 0, reported: None, gap: 0, guard: 0 }),
    {
        DigitWatch { candidate: None, streak: 0, reported: None, gap: 0, guard: 0 }
    }

    /// Start a frame; whether to run the detector on it.
    pub fn start_frame(&mut self, tone_pending: bool) -> (r: bool)
        ensures
            *final(self) == guarded(*old(self), tone_pending),
            r == (final(self).guard == 0),
    {
        if tone_pending {
            self.guard = DTMF_GUARD;
        } else if self.guard > 0 {
            self.guard = self.guard - 1;
        }
        self.guard == 0
    }

    /// Take what the detector found in a frame; a digit to report, if it is time to. A digit is
    /// reported once it has been present for long enough, and not again until it goes away.
    pub fn frame(&mut self, detected: Option<char>) -> (r: Option<char>)
        ensures
            *final(self) == watched(*old(self), detected),
            r == reported_by(*old(self), detected),
    {
        match detected {
            Some(d) => {
                let again = match self.candidate {
                    Some(c) => c == d,
                    None => false,
                };
                self.streak = if again {
                    if self.streak == 255 {
                        255
                    } else {
                        self.streak + 1
                    }
                } else {
                    1
                };
                self.candidate = Some(d);
                self.gap = 0;
                let known = match self.reported {
                    Some(c) => c == d,
                    None => false,
                };
                if self.streak >= DTMF_FRAMES {
                    self.reported = Some(d);
                    if !known {
                        return Some(d);
                    }
                }
                None
            },
            None => {
                self.gap = if self.gap == 255 {
                    255
                } else {
                    self.gap + 1
                };
                if self.gap >= 2 {
                    self.candidate = None;
                    self.streak = 0;
                    self.reported = None;
                }
                None
            },
        }
    }
}

/// The digits that are reported over a number of frames.
pub open spec fn heard_digits(w: DigitWatch, frames: Seq<Option<char>>) -> Seq<char>
    decreases frames.len(),
{
    if frames.len() == 0 {
        seq![]
    } else {
        let later = heard_digits(watched(w, frames[0]), frames.skip(1));
        match reported_by(w, frames[0]) {
            Some(c) => seq![c] + later,
            None => later,
        }
    }
}

/// A digit that lasts over a number of frames: no two in a row are without it.
pub open spec fn lasts(frames: Seq<Option<char>>, d: char) -> bool {
    forall|i: int|
        0 <= i < frames.len() ==> (#[trigger] frames[i] == Some(d) || frames[i].is_none() && (i + 1
            < frames.len() ==> frames[i + 1] == Some(d)))
}

proof fn lemma_reported_stays_silent(w: DigitWatch, d: char, frames: Seq<Option<char>>)
    requires
        w.reported == Some(d),
        lasts(frames, d),
        w.gap == 0 || frames.len() == 0 || frames[0] == Some(d),
    ensures
        heard_digits(w, frames) =~= seq![],
    decreases frames.len(),
{
    if frames.len() > 0 {
        let rest = frames.skip(1);
        assert forall|i: int| 0 <= i < rest.len() implies (#[trigger] rest[i] == Some(d)
            || rest[i].is_none() && (i + 1 < rest.len() ==> rest[i + 1] == Some(d))) by {
            assert(rest[i] == frames[i + 1]);
            assert(i + 1 < rest.len() ==> rest[i + 1] == frames[i + 2]);
        }
        if rest.len() > 0 {
            assert(rest[0] == frames[1]);
        }
        lemma_reported_stays_silent(watched(w, frames[0]), d, rest);
    }
}

/// A digit that lasts for long enough is reported, and reported once, however long it goes on and
/// wherever the detector misses a single frame of it.
pub proof fn law_a_digit_is_reported_once(w: DigitWatch, d: char, frames: Seq<Option<char>>)
    requires
        w.candidate != Some(d),
        w.reported != Some(d),
        frames.len() >= DTMF_FRAMES,
        frames[0] == Some(d),
        frames[1] == Some(d),
        frames[2] == Some(d),
        lasts(frames, d),
    ensures
        heard_digits(w, frames) == seq![d],
{
    let w1 = watched(w, Some(d));
    let w2 = watched(w1, Some(d));
    let w3 = watched(w2, Some(d));
    let f1 = frames.skip(1);
    let f2 = f1.skip(1);
    let f3 = f2.skip(1);
    assert(f1[0] == frames[1] && f2[0] == frames[2]);
    assert forall|i: int| 0 <= i < f3.len() implies (#[trigger] f3[i] == Some(d) || f3[i].is_none()
        && (i + 1 < f3.len() ==> f3[i + 1] == Some(d))) by {
        assert(f3[i] == frames[i + 3]);
        assert(i + 1 < f3.len() ==> f3[i + 1] == frames[i + 4]);
    }
    lemma_reported_stays_silent(w3, d, f3);
    assert(reported_by(w, Some(d)).is_none());
    assert(reported_by(w1, Some(d)).is_none());
    assert(reported_by(w2, Some(d)) == Some(d));
    assert(heard_digits(w2, f2) == seq![d] + heard_digits(w3, f3));
    assert(heard_digits(w1, f1) == heard_digits(w2, f2));
    assert(heard_digits(w, frames) == heard_digits(w1, f1));
    assert(seq![d] + heard_digits(w3, f3) =~= seq![d]);
}

/// Frames that come after a tone was played, none of them with another.
pub open spec fn quiet_frames(w: DigitWatch, n: nat) -> DigitWatch
    decreases n,
{
    if n == 0 {
        w
    } else {
        guarded(quiet_frames(w, (n - 1) as nat), false)
    }
}

/// The tones that are played towards the modem are not heard: the detector stays muted while they
/// last and for half a second after, so that the modem's sidetone cannot echo them to the peer.
pub proof fn law_our_own_tones_are_not_heard(w: DigitWatch, n: nat)
    ensures
        guarded(w, true).guard != 0,
        n < DTMF_GUARD ==> quiet_frames(guarded(w, true), n).guard != 0,
        quiet_frames(guarded(w, true), DTMF_GUARD as nat).guard == 0,
{
    lemma_quiet(guarded(w, true), n);
    lemma_quiet(guarded(w, true), DTMF_GUARD as nat);
}

proof fn lemma_quiet(w: DigitWatch, n: nat)
    ensures
        quiet_frames(w, n).guard == if n >= w.guard {
            0
        } else {
            w.guard - n
        },
    decreases n,
{
    if n > 0 {
        lemma_quiet(w, (n - 1) as nat);
    }
}

/// How many tones of a list are queued: up to the first that does not fit. A digit that has no tone
/// is passed over.
pub open spec fn queued(
    tone: Seq<i16>,
    tones: Seq<Option<Vec<i16>>>,
    gap: nat,
) -> (Seq<i16>, nat)
    decreases tones.len(),
{
    if tones.len() == 0 {
        (tone, 0)
    } else {
        match tones[0] {
            Some(t) => if tone.len() + t@.len() <= alsa_io::MAX_TONE_SAMPLES {
                let with_tone = tone + t@;
                let silence = Seq::new(gap, |i: int| 0i16);
                let with_gap = if with_tone.len() + gap <= alsa_io::MAX_TONE_SAMPLES {
                    with_tone + silence
                } else {
                    with_tone
                };
                let rest = queued(with_gap, tones.skip(1), gap);
                (rest.0, rest.1 + 1)
            } else {
                (tone, 0)
            },
            None => queued(tone, tones.skip(1), gap),
        }
    }
}

/// Play DTMF digits into the uplink audio: the tone of each digit that has one, and a gap of silence
/// behind it. Used when the modem cannot signal them itself. Returns the number of digits queued;
/// the rest did not fit.
pub fn send_dtmf_inband(rings: &mut AudioRings, tones: &Vec<Option<Vec<i16>>>, gap: usize) -> (r:
    usize)
    requires
        old(rings).wf(),
    ensures
        final(rings).wf(),
        r == queued(old(rings)@.tone, tones@, gap as nat).1,
        final(rings)@ == (alsa_io::Rings {
            tone: queued(old(rings)@.tone, tones@, gap as nat).0,
            ..old(rings)@
        }),
{
    let mut silence: Vec<i16> = Vec::new();
    let mut k: usize = 0;
    while k < gap
        invariant
            k <= gap,
            silence@ =~= Seq::new(k as nat, |i: int| 0i16),
        decreases gap - k,
    {
        silence.push(0);
        k += 1;
    }
    let ghost before = rings@;
    let mut count: usize = 0;
    let mut i: usize = 0;
    assert(tones@.skip(0) =~= tones@);
    while i < tones.len()
        invariant
            i <= tones@.len(),
            count <= i,
            before == old(rings)@,
            rings.wf(),
            silence@ == Seq::new(gap as nat, |i: int| 0i16),
            rings@ == (alsa_io::Rings { tone: rings@.tone, ..before }),
            queued(before.tone, tones@, gap as nat).0 == queued(
                rings@.tone,
                tones@.skip(i as int),
                gap as nat,
            ).0,
            queued(before.tone, tones@, gap as nat).1 == count + queued(
                rings@.tone,
                tones@.skip(i as int),
                gap as nat,
            ).1,
        decreases tones@.len() - i,
    {
        assert(tones@.skip(i as int)[0] == tones@[i as int]);
        assert(tones@.skip(i as int).skip(1) =~= tones@.skip(i + 1));
        if let Some(t) = &tones[i] {
            if !rings.queue_tone(t.as_slice()) {
                return count;
            }
            let _ = rings.queue_tone(silence.as_slice());
            count += 1;
        }
        i += 1;
    }
    count
}

/// Feed silence so that the first packets do not find the playback side empty.
pub fn prefill(rings: &mut AudioRings, jitter_ms: u32)
    requires
        old(rings).wf(),
        alsa_io::fits(jitter_ms),
    ensures
        final(rings).wf(),
        ({
            let s = old(rings)@.to_modem + Seq::new(8 * jitter_ms as nat, |i: int| 0i16);
            final(rings)@ == (alsa_io::Rings {
                to_modem: alsa_io::trimmed(s, old(rings)@.target, old(rings)@.high_water),
                overruns: if s.len() > old(rings)@.high_water {
                    alsa_io::counted(old(rings)@.overruns)
                } else {
                    old(rings)@.overruns
                },
                ..old(rings)@
            })
        }),
{
    let n: usize = 8 * jitter_ms as usize;
    let mut silence: Vec<i16> = Vec::new();
    let mut k: usize = 0;
    while k < n
        invariant
            k <= n,
            silence@ =~= Seq::new(k as nat, |i: int| 0i16),
        decreases n - k,
    {
        silence.push(0);
        k += 1;
    }
    rings.push_from_network(silence.as_slice());
}

// ------------------------------------------------------------------ one packet at a time

/// Samples as the codec of a stream carries them.
pub open spec fn coded(law: Law, pcm: Seq<i16>) -> Seq<u8> {
    Seq::new(pcm.len(), |i: int| codec::code_of(law, pcm[i]))
}

/// The samples that a payload of a stream carries.
pub open spec fn decoded(law: Law, payload: Seq<u8>) -> Seq<i16> {
    Seq::new(payload.len(), |i: int| codec::sample_of(law, payload[i]))
}

/// The next frame towards the network, and whether to look for a digit in it.
pub fn next_frame(rings: &mut AudioRings, watch: &mut DigitWatch, samples: usize) -> (r: (
    Vec<i16>,
    bool,
))
    requires
        old(rings).wf(),
    ensures
        final(rings).wf(),
        r.0@ == alsa_io::padded(old(rings)@.to_network, samples as nat),
        final(rings)@ == alsa_io::after_take(old(rings)@, samples as nat),
        *final(watch) == guarded(*old(watch), old(rings)@.tone.len() > 0),
        r.1 == (final(watch).guard == 0),
{
    let pcm = rings.take_for_network(samples);
    let detect = watch.start_frame(rings.tone_pending());
    (pcm, detect)
}

/// The packet for a frame; none where there is nowhere to send it. The stream moves on either way.
pub fn next_packet(sender: &mut RtpSender, law: Law, pcm: &[i16], dest: SocketAddr) -> (r: Option<
    Vec<u8>,
>)
    requires
        old(sender).wf(),
    ensures
        final(sender).wf(),
        *final(sender) == advanced(*old(sender)),
        match r {
            Some(p) => dest.port != 0 && !dest.ip.unspecified() && p@ == packed(
                *old(sender),
                coded(law, pcm@),
            ),
            None => dest.port == 0 || dest.ip.unspecified(),
        },
{
    let mut payload: Vec<u8> = Vec::new();
    codec::encode(law, pcm, &mut payload);
    let packet = sender.packet(payload.as_slice());
    assert(payload@ =~= coded(law, pcm@));
    if can_send_to(dest) {
        Some(packet)
    } else {
        None
    }
}

/// The rings once a datagram was taken: audio is decoded and queued for the modem.
pub open spec fn after_hearing(rings: alsa_io::Rings, law: Law, b: Brought) -> alsa_io::Rings {
    match b {
        Brought::Audio(payload) => {
            let s = rings.to_modem + decoded(law, payload);
            alsa_io::Rings {
                to_modem: alsa_io::trimmed(s, rings.target, rings.high_water),
                overruns: if s.len() > rings.high_water {
                    alsa_io::counted(rings.overruns)
                } else {
                    rings.overruns
                },
                ..rings
            }
        },
        _ => rings,
    }
}

/// Take a datagram: what it brings goes to the modem, and a digit is handed back.
pub fn take_datagram(
    receiver: &mut RtpReceiver,
    rings: &mut AudioRings,
    law: Law,
    d: &[u8],
    src: SocketAddr,
    now_ms: u32,
) -> (r: Option<char>)
    requires
        old(rings).wf(),
    ensures
        final(rings).wf(),
        *final(receiver) == after_datagram(*old(receiver), d@, src, now_ms),
        final(rings)@ == after_hearing(old(rings)@, law, brought(*old(receiver), d@, src)),
        r == match brought(*old(receiver), d@, src) {
            Brought::Digit(c) => Some(c),
            _ => None,
        },
{
    match receiver.on_datagram(d, src, now_ms) {
        Received::Nothing => None,
        Received::Digit(c) => Some(c),
        Received::Audio(payload) => {
            let mut pcm: Vec<i16> = Vec::new();
            codec::decode(law, payload.as_slice(), &mut pcm);
            assert(pcm@ =~= decoded(law, payload@));
            rings.push_from_network(pcm.as_slice());
            None
        },
    }
}

/// What one side sends, the other queues for its modem: the samples of a frame as the codec carries
/// them, none lost and none added, for a peer that is listened to and a ring that has room.
pub proof fn law_sent_audio_is_heard(
    sender: RtpSender,
    law: Law,
    pcm: Seq<i16>,
    receiver: RtpReceiver,
    rings: alsa_io::Rings,
    src: SocketAddr,
)
    requires
        sender.wf(),
        pcm.len() > 0,
        receiver.payload_type == sender.payload_type,
        receiver.event_type != Some(sender.payload_type),
        is_heard(receiver, src),
        rings.to_modem.len() + pcm.len() <= rings.high_water,
    ensures
        after_hearing(
            rings,
            law,
            brought(receiver, packed(sender, coded(law, pcm)), src),
        ).to_modem == rings.to_modem + Seq::new(
            pcm.len(),
            |i: int| codec::sample_of(law, codec::code_of(law, pcm[i])),
        ),
{
    let payload = coded(law, pcm);
    law_a_packet_is_read_back(
        sender.marker,
        sender.payload_type,
        sender.seq,
        sender.timestamp,
        sender.ssrc,
        payload,
    );
    assert(decoded(law, payload) =~= Seq::new(
        pcm.len(),
        |i: int| codec::sample_of(law, codec::code_of(law, pcm[i])),
    ));
}

} // verus!
