//! What of a stream is on the wire, what of it is heard, and what of it is played.
use vstd::prelude::*;

use super::alsa_io;
use crate::media;
use crate::media::{Brought, DigitWatch, Packet, RtpReceiver, RtpSender};
use crate::net::SocketAddr;

verus! {

// ------------------------------------------------------------------ packets

/// A packet is laid out as in RFC 3550: version two with neither padding nor extension, the marker
/// above the payload type, then the number, the time and the source with their high bytes first, and
/// the payload as it is.
pub proof fn law_a_packet_is_laid_out(
    marker: bool,
    payload_type: u8,
    seq: u16,
    timestamp: u32,
    ssrc: u32,
    payload: Seq<u8>,
)
    requires
        payload_type < 128,
    ensures
        ({
            let d = media::rtp_packet(marker, payload_type, seq, timestamp, ssrc, payload);
            &&& d.len() == 12 + payload.len()
            &&& d[0] == 0x80
            &&& d[1] == payload_type + if marker {
                128int
            } else {
                0
            }
            &&& d[2] * 0x100 + d[3] == seq
            &&& d[4] * 0x100_0000 + d[5] * 0x1_0000 + d[6] * 0x100 + d[7] == timestamp
            &&& d[8] * 0x100_0000 + d[9] * 0x1_0000 + d[10] * 0x100 + d[11] == ssrc
            &&& d.skip(12) == payload
        }),
{
    let d = media::rtp_packet(marker, payload_type, seq, timestamp, ssrc, payload);
    lemma_four(timestamp);
    lemma_four(ssrc);
    assert(d.skip(12) =~= payload);
}

proof fn lemma_four(n: u32)
    ensures
        ({
            let b = media::four_bytes(n);
            b[0] * 0x100_0000 + b[1] * 0x1_0000 + b[2] * 0x100 + b[3] == n
        }),
{
    let high = n / 0x1_0000;
    assert(n / 0x100_0000 == high / 256) by (bit_vector)
        requires
            high == n / 0x1_0000,
    ;
    assert(n / 256 % 256 == n % 0x1_0000 / 256) by (bit_vector);
    assert(n % 256 == n % 0x1_0000 % 256) by (bit_vector);
}

/// The packets of a stream are numbered through and timed by the samples they hold, both going round
/// where they overflow; they come from one source with one payload type, and only the first is marked.
pub proof fn law_a_stream_is_numbered_through(s: RtpSender, payload: Seq<u8>, next: Seq<u8>)
    requires
        s.payload_type < 128,
    ensures
        ({
            let d = media::packed(s, payload);
            let e = media::packed(media::advanced(s), next);
            let t = d[4] * 0x100_0000 + d[5] * 0x1_0000 + d[6] * 0x100 + d[7];
            &&& d[2] * 0x100 + d[3] == s.seq
            &&& t == s.timestamp
            &&& e[2] * 0x100 + e[3] == (d[2] * 0x100 + d[3] + 1) % 0x1_0000
            &&& e[4] * 0x100_0000 + e[5] * 0x1_0000 + e[6] * 0x100 + e[7] == (t
                + s.samples_per_packet) % 0x1_0000_0000
            &&& d[8] * 0x100_0000 + d[9] * 0x1_0000 + d[10] * 0x100 + d[11] == s.ssrc
            &&& e.subrange(8, 12) == d.subrange(8, 12)
            &&& d[1] % 128 == s.payload_type
            &&& e[1] == s.payload_type
            &&& media::advanced(s).samples_per_packet == s.samples_per_packet
        }),
{
    let a = media::advanced(s);
    law_a_packet_is_laid_out(s.marker, s.payload_type, s.seq, s.timestamp, s.ssrc, payload);
    law_a_packet_is_laid_out(a.marker, a.payload_type, a.seq, a.timestamp, a.ssrc, next);
    assert(media::packed(a, next).subrange(8, 12) =~= media::packed(s, payload).subrange(8, 12));
}

/// Whatever else a packet carries (contributing sources, an extension, padding), what is heard of it
/// is its payload, all of it and nothing else.
pub proof fn law_a_payload_is_found(
    d: Seq<u8>,
    head: Seq<u8>,
    sources: Seq<u8>,
    extension: Option<(u8, u8, Seq<u8>)>,
    payload: Seq<u8>,
    padding: Seq<u8>,
)
    requires
        head.len() == 12,
        sources.len() == 4 * (head[0] % 16),
        (head[0] / 16 % 2 == 1) == extension.is_some(),
        (head[0] / 32 % 2 == 1) == (padding.len() > 0),
        padding.len() > 0 ==> padding.last() == padding.len(),
        extension matches Some((_, _, words)) ==> words.len() % 4 == 0 && words.len() / 4 < 0x1_0000,
        payload.len() > 0,
        d == head + sources + (match extension {
            Some((a, b, words)) => seq![
                a,
                b,
                (words.len() / 4 / 256) as u8,
                (words.len() / 4 % 256) as u8,
            ] + words,
            None => seq![],
        }) + payload + padding,
    ensures
        media::packet_of(d) == Some(
            Packet {
                payload_type: (head[1] % 128) as u8,
                timestamp: (head[4] * 0x100_0000 + head[5] * 0x1_0000 + head[6] * 0x100
                    + head[7]) as u32,
                payload,
            },
        ),
{
    let s: int = 12 + sources.len() as int;
    assert(d[0] == head[0] && d[1] == head[1]);
    assert(d[4] == head[4] && d[5] == head[5] && d[6] == head[6] && d[7] == head[7]);
    match extension {
        Some((a, b, words)) => {
            let n = words.len() / 4;
            assert(d[s + 2] == (n / 256) as u8);
            assert(d[s + 3] == (n % 256) as u8);
            assert(media::payload_start(d) == Some(s + 4 + words.len()));
            assert(d.subrange((s + 4 + words.len()) as int, d.len() - padding.len()) =~= payload);
        },
        None => {
            assert(media::payload_start(d) == Some(s));
            assert(d.subrange(s, d.len() - padding.len()) =~= payload);
        },
    }
    if padding.len() > 0 {
        assert(d.last() == padding.last());
    }
}

// ------------------------------------------------------------------ what is heard

/// The sixteen events of RFC 4733 are the keys of a telephone: the digits, the star, the hash and the
/// four letters. There are no others.
pub proof fn law_an_event_is_a_key(event: u8)
    ensures
        event < 10 ==> (media::event_key(event) matches Some(k) && k as int == '0' as int + event),
        event == 10 ==> media::event_key(event) == Some('*'),
        event == 11 ==> media::event_key(event) == Some('#'),
        12 <= event < 16 ==> (media::event_key(event) matches Some(k) && k as int == 'A' as int
            + event - 12),
        event >= 16 ==> media::event_key(event).is_none(),
{
}

/// A packet of the peer is played where it has the payload type of the call, byte for byte, and is a
/// digit where it has that of telephone events and begins an event with a key. Nothing else is made
/// of it.
pub proof fn law_a_packet_of_the_peer_is_heard(
    r: RtpReceiver,
    d: Seq<u8>,
    src: SocketAddr,
    p: Packet,
)
    requires
        src.ip == r.signalled.ip,
        d.len() >= 12,
        d[0] / 64 == 2,
        media::packet_of(d) == Some(p),
    ensures
        p.payload_type == r.payload_type && r.event_type != Some(p.payload_type) ==> media::brought(
            r,
            d,
            src,
        ) == Brought::Audio(p.payload),
        r.event_type == Some(p.payload_type) && p.payload.len() >= 4 && p.payload[0] < 16
            && r.last_event != Some(p.timestamp) ==> (media::brought(r, d, src) matches
            Brought::Digit(c) && media::event_key(p.payload[0]) == Some(c)),
        r.event_type == Some(p.payload_type) && (p.payload.len() < 4 || p.payload[0] >= 16
            || r.last_event == Some(p.timestamp)) ==> media::brought(r, d, src) is Nothing,
        p.payload_type != r.payload_type && r.event_type != Some(p.payload_type) ==> media::brought(
            r,
            d,
            src,
        ) is Nothing,
{
}

/// An event is one digit, however many packets tell of it: those that follow with the same time bring
/// nothing more, and one with another time brings the next.
pub proof fn law_an_event_is_one_digit(
    r: RtpReceiver,
    d: Seq<u8>,
    e: Seq<u8>,
    src: SocketAddr,
    now_ms: u32,
    p: Packet,
    q: Packet,
)
    requires
        src.ip == r.signalled.ip,
        media::has_rtp_header(d),
        media::has_rtp_header(e),
        media::packet_of(d) == Some(p),
        media::packet_of(e) == Some(q),
        r.event_type == Some(p.payload_type),
        q.payload_type == p.payload_type,
        media::brought(r, d, src) is Digit,
    ensures
        q.timestamp == p.timestamp ==> media::brought(
            media::after_datagram(r, d, src, now_ms),
            e,
            src,
        ) is Nothing,
        q.timestamp != p.timestamp && q.payload.len() >= 4 && q.payload[0] < 16 ==> media::brought(
            media::after_datagram(r, d, src, now_ms),
            e,
            src,
        ) is Digit,
{
}

/// What is sent goes where the peer said, until, where that is wanted, its first packet shows that it
/// sends from elsewhere at the same address. Every packet that is heard ends the silence.
pub proof fn law_the_peer_is_answered_where_it_sends_from(
    r: RtpReceiver,
    d: Seq<u8>,
    src: SocketAddr,
    now_ms: u32,
)
    requires
        src.ip == r.signalled.ip,
        media::has_rtp_header(d),
    ensures
        media::after_datagram(r, d, src, now_ms).last_rtp_ms == now_ms,
        media::after_datagram(r, d, src, now_ms).signalled == r.signalled,
        !r.symmetric ==> media::after_datagram(r, d, src, now_ms).remote == r.remote,
        r.latched ==> media::after_datagram(r, d, src, now_ms).remote == r.remote,
        r.symmetric && !r.latched && src != r.signalled ==> media::after_datagram(
            r,
            d,
            src,
            now_ms,
        ).remote == src,
        r.symmetric && !r.latched && src == r.signalled ==> media::after_datagram(
            r,
            d,
            src,
            now_ms,
        ).remote == r.remote,
        r.symmetric ==> media::after_datagram(r, d, src, now_ms).latched,
{
}

// ------------------------------------------------------------------ what is played

/// A ring is played first in, first out: what is taken is the oldest samples in their order, with
/// silence where there are too few, and what stays is the others.
pub proof fn law_a_ring_is_played_in_order(s: Seq<i16>, n: nat)
    ensures
        alsa_io::padded(s, n).len() == n,
        n <= s.len() ==> alsa_io::padded(s, n) + alsa_io::rest(s, n) == s,
        n > s.len() ==> alsa_io::padded(s, n).take(s.len() as int) == s && alsa_io::rest(
            s,
            n,
        ).len() == 0,
        forall|i: int| s.len() <= i < n ==> #[trigger] alsa_io::padded(s, n)[i] == 0,
{
    if n <= s.len() {
        assert(alsa_io::padded(s, n) + alsa_io::rest(s, n) =~= s);
    } else {
        assert(alsa_io::padded(s, n).take(s.len() as int) =~= s);
    }
}

/// A ring that runs over loses its oldest samples, and keeps the newest in their order.
pub proof fn law_a_full_ring_keeps_the_newest(s: Seq<i16>, target: usize, high_water: usize)
    requires
        target <= high_water,
    ensures
        s.len() <= high_water ==> alsa_io::trimmed(s, target, high_water) == s,
        s.len() > high_water ==> alsa_io::trimmed(s, target, high_water).len() == target,
        forall|i: int|
            0 <= i < alsa_io::trimmed(s, target, high_water).len() ==> #[trigger] alsa_io::trimmed(
                s,
                target,
                high_water,
            )[i] == s[i + s.len() - alsa_io::trimmed(s, target, high_water).len()],
{
}

/// A ring is meant to hold as long as the longer of the jitter and the period, and twenty milliseconds
/// at least, at eight samples a millisecond.
pub proof fn law_a_ring_holds_the_jitter(jitter_ms: u32, period_ms: u32)
    ensures
        alsa_io::target_depth(jitter_ms, period_ms) >= 8 * jitter_ms,
        alsa_io::target_depth(jitter_ms, period_ms) >= 8 * period_ms,
        alsa_io::target_depth(jitter_ms, period_ms) >= 160,
        alsa_io::target_depth(jitter_ms, period_ms) == 8 * jitter_ms || alsa_io::target_depth(
            jitter_ms,
            period_ms,
        ) == 8 * period_ms || alsa_io::target_depth(jitter_ms, period_ms) == 160,
{
}

/// Tones that fit are queued in their order behind what is queued already, each with a pause behind it;
/// what is not a tone is passed over.
pub proof fn law_tones_are_queued_in_order(
    tone: Seq<i16>,
    t: Vec<i16>,
    rest: Seq<Option<Vec<i16>>>,
    gap: nat,
)
    requires
        tone.len() + t@.len() + gap <= alsa_io::MAX_TONE_SAMPLES,
    ensures
        media::queued(tone, seq![], gap) == (tone, 0nat),
        ({
            let next = media::queued(tone + t@ + Seq::new(gap, |i: int| 0i16), rest, gap);
            media::queued(tone, seq![Some(t)] + rest, gap) == (next.0, next.1 + 1)
        }),
        media::queued(tone, seq![None::<Vec<i16>>] + rest, gap) == media::queued(tone, rest, gap),
{
    let some = seq![Some(t)] + rest;
    let none = seq![None::<Vec<i16>>] + rest;
    assert(some.skip(1) =~= rest);
    assert(none.skip(1) =~= rest);
}

// ------------------------------------------------------------------ digits and levels in the audio

/// A digit is reported only in a frame that holds it, as the third in a row at least, and not where it
/// was reported before and nothing but it came since.
pub proof fn law_a_digit_is_reported_where_it_sounds(w: DigitWatch, heard: Option<char>)
    ensures
        media::reported_by(w, heard) matches Some(d) ==> heard == Some(d) && w.candidate == Some(d)
            && w.streak >= 2 && w.reported != Some(d),
        heard matches Some(d) ==> (w.candidate == Some(d) && w.streak == 2 && w.reported != Some(d)
            ==> media::reported_by(w, heard) == Some(d)),
{
}

/// A digit that is pressed again is reported again: two frames without one end it, and one does not.
pub proof fn law_a_pause_ends_a_digit(w: DigitWatch)
    requires
        w.gap == 0,
    ensures
        media::watched(w, None).candidate == w.candidate,
        media::watched(w, None).streak == w.streak,
        media::watched(w, None).reported == w.reported,
        ({
            let ended = media::watched(media::watched(w, None), None);
            ended.candidate.is_none() && ended.streak == 0 && ended.reported.is_none()
        }),
{
}

/// The level of a frame is the mean magnitude of its samples, rounded down; it does not depend on their
/// signs, and a frame of one value throughout has that value's magnitude.
pub proof fn law_a_level_is_the_mean_magnitude(s: Seq<i16>, negated: Seq<i16>, v: i16)
    requires
        s.len() > 0,
        negated.len() == s.len(),
        forall|i: int| 0 <= i < s.len() ==> #[trigger] negated[i] == -s[i],
    ensures
        alsa_io::level_of(negated) == alsa_io::level_of(s),
        (forall|i: int| 0 <= i < s.len() ==> #[trigger] s[i] == v) ==> alsa_io::level_of(s) == if v
            >= 0 {
            v as int
        } else {
            -v
        },
{
    lemma_magnitudes(s, negated, v);
    if forall|i: int| 0 <= i < s.len() ==> #[trigger] s[i] == v {
        let m = alsa_io::magnitude(v) as int;
        let n = s.len() as int;
        assert((n * m) / n == m) by (nonlinear_arith)
            requires
                n > 0,
        ;
    }
}

proof fn lemma_magnitudes(s: Seq<i16>, negated: Seq<i16>, v: i16)
    requires
        negated.len() == s.len(),
        forall|i: int| 0 <= i < s.len() ==> #[trigger] negated[i] == -s[i],
    ensures
        alsa_io::magnitudes(negated) == alsa_io::magnitudes(s),
        (forall|i: int| 0 <= i < s.len() ==> #[trigger] s[i] == v) ==> alsa_io::magnitudes(s)
            == s.len() * alsa_io::magnitude(v),
    decreases s.len(),
{
    if s.len() > 0 {
        assert forall|i: int| 0 <= i < s.len() - 1 implies #[trigger] negated.drop_last()[i]
            == -s.drop_last()[i] by {
            assert(negated[i] == -s[i]);
        }
        assert(negated[s.len() - 1] == -s[s.len() - 1]);
        lemma_magnitudes(s.drop_last(), negated.drop_last(), v);
        let m = alsa_io::magnitude(v) as int;
        let n = s.len() as int;
        assert((n - 1) * m + m == n * m) by (nonlinear_arith);
        if forall|i: int| 0 <= i < s.len() ==> #[trigger] s[i] == v {
            assert forall|i: int| 0 <= i < s.len() - 1 implies #[trigger] s.drop_last()[i] == v by {
                assert(s[i] == v);
            }
            assert(s[s.len() - 1] == v);
        }
    }
}

} // verus!
