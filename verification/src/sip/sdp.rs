//! Just enough SDP for a narrow-band G.711 audio gateway.
use vstd::prelude::*;

use super::auth;
use crate::net;
use crate::net::IpAddr;
use crate::text;

verus! {

#[derive(Debug, Clone, Copy, PartialEq, Eq, Structural)]
pub enum Codec {
    Pcmu,
    Pcma,
}

pub open spec fn codec_number(c: Codec) -> u8 {
    match c {
        Codec::Pcmu => 0,
        Codec::Pcma => 8,
    }
}

pub open spec fn codec_name(c: Codec) -> Seq<char> {
    match c {
        Codec::Pcmu => "PCMU/8000"@,
        Codec::Pcma => "PCMA/8000"@,
    }
}

pub open spec fn codec_of(pt: u8) -> Option<Codec> {
    if pt == 0 {
        Some(Codec::Pcmu)
    } else if pt == 8 {
        Some(Codec::Pcma)
    } else {
        None
    }
}

impl Codec {
    pub fn payload_type(self) -> (r: u8)
        ensures
            r == codec_number(self),
    {
        match self {
            Codec::Pcmu => 0,
            Codec::Pcma => 8,
        }
    }

    pub fn rtpmap(self) -> (r: &'static str)
        ensures
            r@ == codec_name(self),
    {
        match self {
            Codec::Pcmu => "PCMU/8000",
            Codec::Pcma => "PCMA/8000",
        }
    }

    pub fn from_payload_type(pt: u8) -> (r: Option<Codec>)
        ensures
            r == codec_of(pt),
    {
        match pt {
            0 => Some(Codec::Pcmu),
            8 => Some(Codec::Pcma),
            _ => None,
        }
    }
}

/// A codec is found again by its payload type, and only by that.
pub proof fn law_codec_round_trip(c: Codec, pt: u8)
    ensures
        codec_of(codec_number(c)) == Some(c),
        codec_of(pt).is_some() ==> codec_number(codec_of(pt).unwrap()) == pt,
{
}

// ------------------------------------------------------------------ directions

#[derive(Debug, Clone, Copy, PartialEq, Eq, Structural)]
pub enum Direction {
    SendRecv,
    SendOnly,
    RecvOnly,
    Inactive,
}

pub open spec fn direction_name(d: Direction) -> Seq<char> {
    match d {
        Direction::SendRecv => "sendrecv"@,
        Direction::SendOnly => "sendonly"@,
        Direction::RecvOnly => "recvonly"@,
        Direction::Inactive => "inactive"@,
    }
}

pub open spec fn mirrored(d: Direction) -> Direction {
    match d {
        Direction::SendOnly => Direction::RecvOnly,
        Direction::RecvOnly => Direction::SendOnly,
        Direction::SendRecv => Direction::SendRecv,
        Direction::Inactive => Direction::Inactive,
    }
}

pub open spec fn sends(d: Direction) -> bool {
    d == Direction::SendRecv || d == Direction::SendOnly
}

impl Direction {
    fn as_str(self) -> (r: &'static str)
        ensures
            r@ == direction_name(self),
    {
        match self {
            Direction::SendRecv => "sendrecv",
            Direction::SendOnly => "sendonly",
            Direction::RecvOnly => "recvonly",
            Direction::Inactive => "inactive",
        }
    }

    /// The direction an answer takes to this offer (RFC 3264, section 6.1).
    ///
    /// The two ends describe the same stream from opposite sides, so a peer that says it will only
    /// send is told we will only receive.
    pub fn reversed(self) -> (r: Direction)
        ensures
            r == mirrored(self),
    {
        match self {
            Direction::SendOnly => Direction::RecvOnly,
            Direction::RecvOnly => Direction::SendOnly,
            Direction::SendRecv => Direction::SendRecv,
            Direction::Inactive => Direction::Inactive,
        }
    }

    /// Is the peer that offered this going to send us anything?
    pub fn peer_sends(self) -> (r: bool)
        ensures
            r == sends(self),
    {
        match self {
            Direction::SendRecv => true,
            Direction::SendOnly => true,
            Direction::RecvOnly => false,
            Direction::Inactive => false,
        }
    }
}

/// Mirroring twice gives the direction back, and one end receives exactly where the other sends.
pub proof fn law_mirrored(d: Direction)
    ensures
        mirrored(mirrored(d)) == d,
        sends(mirrored(d)) == (d == Direction::SendRecv || d == Direction::RecvOnly),
{
}

// ------------------------------------------------------------------ descriptions

#[derive(Debug)]
pub struct Sdp {
    pub origin_user: String,
    pub session_id: u64,
    pub session_version: u64,
    pub address: IpAddr,
    pub port: u16,
    /// Payload types offered, in preference order.
    pub payload_types: Vec<u8>,
    /// Dynamic payload type for RFC 2833 telephone-event, if offered.
    pub telephone_event: Option<u8>,
    pub ptime: Option<u32>,
    pub sendrecv: Direction,
}

/// A session description, mathematically.
#[verifier::ext_equal]
pub struct Session {
    pub origin_user: Seq<char>,
    pub session_id: u64,
    pub session_version: u64,
    pub address: IpAddr,
    pub port: u16,
    pub payload_types: Seq<u8>,
    pub telephone_event: Option<u8>,
    pub ptime: Option<u32>,
    pub sendrecv: Direction,
}

impl View for Sdp {
    type V = Session;

    open spec fn view(&self) -> Session {
        Session {
            origin_user: self.origin_user@,
            session_id: self.session_id,
            session_version: self.session_version,
            address: self.address,
            port: self.port,
            payload_types: self.payload_types@,
            telephone_event: self.telephone_event,
            ptime: self.ptime,
            sendrecv: self.sendrecv,
        }
    }
}

impl Clone for Sdp {
    fn clone(&self) -> (r: Self)
        ensures
            r@ == self@,
    {
        Sdp {
            origin_user: self.origin_user.clone(),
            session_id: self.session_id,
            session_version: self.session_version,
            address: self.address,
            port: self.port,
            payload_types: vstd::slice::slice_to_vec(self.payload_types.as_slice()),
            telephone_event: self.telephone_event,
            ptime: self.ptime,
            sendrecv: self.sendrecv,
        }
    }
}

// ------------------------------------------------------------------ reading

/// What has been read of a description.
#[verifier::ext_equal]
pub struct Progress {
    pub address: Option<IpAddr>,
    pub media_address: Option<IpAddr>,
    pub port: u16,
    pub payload_types: Seq<u8>,
    pub telephone_event: Option<u8>,
    pub ptime: Option<u32>,
    pub direction: Direction,
    pub in_audio: bool,
    pub seen_media: bool,
}

pub open spec fn nothing_read() -> Progress {
    Progress {
        address: None,
        media_address: None,
        port: 0,
        payload_types: seq![],
        telephone_event: None,
        ptime: None,
        direction: Direction::SendRecv,
        in_audio: false,
        seen_media: false,
    }
}

/// An address without a multicast suffix.
pub open spec fn connection_ip(s: Seq<char>) -> Option<IpAddr> {
    net::ip_of(s.take(text::find(s, '/')))
}

/// The address of a connection line: its third word.
pub open spec fn connection_of(v: Seq<char>) -> Option<IpAddr> {
    let w = text::words(v);
    if w.len() > 2 {
        connection_ip(w[2])
    } else {
        None
    }
}

pub open spec fn small_number(s: Seq<char>) -> Option<u8> {
    match text::number(s, 255) {
        Some(n) => Some(n as u8),
        None => None,
    }
}

/// The payload types among words; what is none is left out.
pub open spec fn payloads_of(w: Seq<Seq<char>>) -> Seq<u8>
    decreases w.len(),
{
    if w.len() == 0 {
        seq![]
    } else {
        match small_number(w.last()) {
            Some(n) => payloads_of(w.drop_last()).push(n),
            None => payloads_of(w.drop_last()),
        }
    }
}

/// A media line: the first audio stream with a payload type counts.
pub open spec fn media_read(v: Seq<char>, p: Progress) -> Progress {
    let w = text::words(v);
    let in_audio = w.len() > 0 && w[0] == "audio"@ && p.payload_types.len() == 0;
    if in_audio {
        Progress {
            seen_media: true,
            in_audio,
            port: if w.len() > 1 {
                match text::number(w[1], 65535) {
                    Some(n) => n as u16,
                    None => 0,
                }
            } else {
                0
            },
            payload_types: if w.len() > 3 {
                payloads_of(w.skip(3))
            } else {
                seq![]
            },
            ..p
        }
    } else {
        Progress { seen_media: true, in_audio, ..p }
    }
}

/// An attribute of the session or of the audio stream.
pub open spec fn attribute_read(v: Seq<char>, p: Progress) -> Progress {
    let a = text::trim(v);
    if text::has_prefix(a, "rtpmap:"@) {
        let w = text::words(a.skip("rtpmap:"@.len() as int));
        if w.len() > 1 && text::has_prefix(text::lower(w[1]), "telephone-event"@) {
            Progress { telephone_event: small_number(w[0]), ..p }
        } else {
            p
        }
    } else if text::has_prefix(a, "ptime:"@) {
        Progress {
            ptime: match text::number(
                text::trim(a.skip("ptime:"@.len() as int)),
                0xffff_ffff,
            ) {
                Some(n) => Some(n as u32),
                None => None,
            },
            ..p
        }
    } else if text::eq_nocase(a, "sendonly"@) {
        Progress { direction: Direction::SendOnly, ..p }
    } else if text::eq_nocase(a, "recvonly"@) {
        Progress { direction: Direction::RecvOnly, ..p }
    } else if text::eq_nocase(a, "inactive"@) {
        Progress { direction: Direction::Inactive, ..p }
    } else if text::eq_nocase(a, "sendrecv"@) {
        Progress { direction: Direction::SendRecv, ..p }
    } else {
        p
    }
}

pub open spec fn line_read(line: Seq<char>, p: Progress) -> Progress {
    match text::split_once(text::strip_end(line, '\r'), '=') {
        None => p,
        Some((key, value)) => if key == "c"@ {
            if !p.seen_media {
                Progress { address: connection_of(value), ..p }
            } else if p.in_audio {
                Progress { media_address: connection_of(value), ..p }
            } else {
                p
            }
        } else if key == "m"@ {
            media_read(value, p)
        } else if key == "a"@ && (p.in_audio || !p.seen_media) {
            attribute_read(value, p)
        } else {
            p
        },
    }
}

pub open spec fn lines_read(lines: Seq<Seq<char>>) -> Progress
    decreases lines.len(),
{
    if lines.len() == 0 {
        nothing_read()
    } else {
        line_read(lines.last(), lines_read(lines.drop_last()))
    }
}

/// The description a text stands for; nothing where no audio stream names a payload type.
pub open spec fn session_of(s: Seq<char>) -> Option<Session> {
    let p = lines_read(text::lines(s));
    if p.payload_types.len() == 0 {
        None
    } else {
        Some(
            Session {
                origin_user: "-"@,
                session_id: 0,
                session_version: 0,
                address: match (p.media_address, p.address) {
                    (Some(a), _) => a,
                    (None, Some(a)) => a,
                    (None, None) => IpAddr::V4(0),
                },
                port: p.port,
                payload_types: p.payload_types,
                telephone_event: p.telephone_event,
                ptime: p.ptime,
                sendrecv: p.direction,
            },
        )
    }
}

struct Reading {
    address: Option<IpAddr>,
    media_address: Option<IpAddr>,
    port: u16,
    payload_types: Vec<u8>,
    telephone_event: Option<u8>,
    ptime: Option<u32>,
    direction: Direction,
    in_audio: bool,
    seen_media: bool,
}

impl View for Reading {
    type V = Progress;

    closed spec fn view(&self) -> Progress {
        Progress {
            address: self.address,
            media_address: self.media_address,
            port: self.port,
            payload_types: self.payload_types@,
            telephone_event: self.telephone_event,
            ptime: self.ptime,
            direction: self.direction,
            in_audio: self.in_audio,
            seen_media: self.seen_media,
        }
    }
}

fn parse_ip(s: &[char]) -> (r: Option<IpAddr>)
    ensures
        r == connection_ip(s@),
{
    // Strip any TTL or multicast suffix ("224.0.0.1/127").
    let n = text::index_of(s, '/');
    net::parse_ip_chars(text::take(s, n))
}

fn read_connection(v: &[char]) -> (r: Option<IpAddr>)
    ensures
        r == connection_of(v@),
{
    let w = text::words_of(v);
    let ghost ws = text::words(v@);
    assert(text::slices(w@) == ws);
    assert(w@.len() == ws.len());
    if w.len() > 2 {
        assert(w@[2]@ == ws[2]);
        parse_ip(w[2])
    } else {
        None
    }
}

fn read_payloads(w: &Vec<&[char]>) -> (r: Vec<u8>)
    requires
        w@.len() > 3,
    ensures
        r@ == payloads_of(text::slices(w@).skip(3)),
{
    let ghost all = text::slices(w@).skip(3);
    let mut out: Vec<u8> = Vec::new();
    let mut i: usize = 3;
    assert(all.take(0) =~= Seq::<Seq<char>>::empty());
    while i < w.len()
        invariant
            3 <= i <= w@.len(),
            all == text::slices(w@).skip(3),
            out@ == payloads_of(all.take(i - 3)),
        decreases w@.len() - i,
    {
        proof {
            assert(all.take(i - 2).drop_last() =~= all.take(i - 3));
            assert(all.take(i - 2).last() == w@[i as int]@);
        }
        if let Some(n) = text::parse_u8(w[i]) {
            out.push(n);
        }
        i += 1;
    }
    assert(all.take(i - 3) =~= all);
    out
}

fn read_media(v: &[char], p: &mut Reading)
    ensures
        final(p)@ == media_read(v@, old(p)@),
{
    let w = text::words_of(v);
    let ghost ws = text::words(v@);
    assert(text::slices(w@) == ws);
    assert(w@.len() == ws.len());
    assert(forall|i: int| 0 <= i < ws.len() ==> (#[trigger] w@[i])@ == ws[i]);
    p.seen_media = true;
    p.in_audio = w.len() > 0 && text::is(w[0], "audio") && p.payload_types.len() == 0;
    if p.in_audio {
        p.port = if w.len() > 1 {
            match text::parse_u16(w[1]) {
                Some(n) => n,
                None => 0,
            }
        } else {
            0
        };
        p.payload_types = if w.len() > 3 {
            read_payloads(&w)
        } else {
            Vec::new()
        };
    }
    assert(p@ =~= media_read(v@, old(p)@));
}

fn read_attribute(v: &[char], p: &mut Reading)
    ensures
        final(p)@ == attribute_read(v@, old(p)@),
{
    let a = text::trimmed(v);
    if let Some(rest) = text::strip_prefix(a, "rtpmap:") {
        let w = text::words_of(rest);
        let ghost ws = text::words(rest@);
        assert(text::slices(w@) == ws);
        assert(w@.len() == ws.len());
        assert(forall|i: int| 0 <= i < ws.len() ==> (#[trigger] w@[i])@ == ws[i]);
        if w.len() > 1 {
            let enc = text::lowercase(w[1]);
            if text::starts_with(enc.as_slice(), "telephone-event") {
                p.telephone_event = text::parse_u8(w[0]);
            }
        }
    } else if let Some(rest) = text::strip_prefix(a, "ptime:") {
        p.ptime = text::parse_u32(text::trimmed(rest));
    } else if text::is_nocase(a, "sendonly") {
        p.direction = Direction::SendOnly;
    } else if text::is_nocase(a, "recvonly") {
        p.direction = Direction::RecvOnly;
    } else if text::is_nocase(a, "inactive") {
        p.direction = Direction::Inactive;
    } else if text::is_nocase(a, "sendrecv") {
        p.direction = Direction::SendRecv;
    }
    assert(p@ =~= attribute_read(v@, old(p)@));
}

fn read_line(line: &[char], p: &mut Reading)
    ensures
        final(p)@ == line_read(line@, old(p)@),
{
    if let Some((key, value)) = text::cut(text::stripped_end(line, '\r'), '=') {
        if text::is(key, "c") {
            let ip = read_connection(value);
            if !p.seen_media {
                p.address = ip;
            } else if p.in_audio {
                p.media_address = ip;
            }
        } else if text::is(key, "m") {
            read_media(value, p);
        } else if text::is(key, "a") && (p.in_audio || !p.seen_media) {
            read_attribute(value, p);
        }
    }
    assert(p@ =~= line_read(line@, old(p)@));
}

// ------------------------------------------------------------------ offers and answers

/// Our own offer: both codecs, in both directions.
pub open spec fn offered(
    address: IpAddr,
    port: u16,
    telephone_event: Option<u8>,
    ptime: u32,
    now: u64,
) -> Session {
    Session {
        origin_user: "modem2sip"@,
        session_id: now,
        session_version: now,
        address,
        port,
        payload_types: seq![0u8, 8u8],
        telephone_event,
        ptime: Some(ptime),
        sendrecv: Direction::SendRecv,
    }
}

/// Our answer to an offer: one codec, the telephone events the peer offered where we want them, and
/// the mirrored direction.
pub open spec fn answered(
    offer: Session,
    address: IpAddr,
    port: u16,
    codec: Codec,
    dtmf_pt: Option<u8>,
    ptime: u32,
    now: u64,
) -> Session {
    Session {
        origin_user: "modem2sip"@,
        session_id: now,
        session_version: now,
        address,
        port,
        payload_types: seq![codec_number(codec)],
        telephone_event: if dtmf_pt.is_some() {
            offer.telephone_event
        } else {
            None
        },
        ptime: Some(ptime),
        sendrecv: mirrored(offer.sendrecv),
    }
}

/// The first payload type that is a codec we have.
pub open spec fn first_codec(pts: Seq<u8>) -> Option<Codec>
    decreases pts.len(),
{
    if pts.len() == 0 {
        None
    } else if codec_of(pts[0]).is_some() {
        codec_of(pts[0])
    } else {
        first_codec(pts.skip(1))
    }
}

pub open spec fn media_there(s: Session) -> bool {
    s.port != 0 && !s.address.unspecified()
}

// ------------------------------------------------------------------ writing

pub open spec fn numbers_text(v: Seq<u8>) -> Seq<char>
    decreases v.len(),
{
    if v.len() == 0 {
        seq![]
    } else if v.len() == 1 {
        text::dec(v[0] as nat)
    } else {
        numbers_text(v.drop_last()) + " "@ + text::dec(v.last() as nat)
    }
}

pub open spec fn all_types(s: Session) -> Seq<u8> {
    match s.telephone_event {
        Some(t) => s.payload_types.push(t),
        None => s.payload_types,
    }
}

/// The rtpmap lines of the codecs among payload types.
pub open spec fn rtpmaps_text(pts: Seq<u8>) -> Seq<char>
    decreases pts.len(),
{
    if pts.len() == 0 {
        seq![]
    } else {
        rtpmaps_text(pts.drop_last()) + (match codec_of(pts.last()) {
            Some(c) => "a=rtpmap:"@ + text::dec(pts.last() as nat) + " "@ + codec_name(c) + "\r\n"@,
            None => seq![],
        })
    }
}

pub open spec fn events_text(t: Option<u8>) -> Seq<char> {
    match t {
        Some(te) => "a=rtpmap:"@ + text::dec(te as nat) + " telephone-event/8000\r\na=fmtp:"@
            + text::dec(te as nat) + " 0-16\r\n"@,
        None => seq![],
    }
}

pub open spec fn ptime_text(t: Option<u32>) -> Seq<char> {
    match t {
        Some(n) => "a=ptime:"@ + text::dec(n as nat) + "\r\n"@,
        None => seq![],
    }
}

pub open spec fn family_text(a: IpAddr) -> Seq<char> {
    if a is V6 {
        "IP6"@
    } else {
        "IP4"@
    }
}

/// The origin, the address and the media line.
pub open spec fn session_head(s: Session) -> Seq<char> {
    "v=0\r\no="@ + s.origin_user + " "@ + text::dec(s.session_id as nat) + " "@ + text::dec(
        s.session_version as nat,
    ) + " IN "@ + family_text(s.address) + " "@ + net::ip_text(s.address)
        + "\r\ns=modem2sip\r\nc=IN "@ + family_text(s.address) + " "@ + net::ip_text(s.address)
        + "\r\nt=0 0\r\nm=audio "@ + text::dec(s.port as nat) + " RTP/AVP "@
}

/// A description as it is written.
pub open spec fn session_text(s: Session) -> Seq<char> {
    session_head(s) + numbers_text(all_types(s)) + "\r\n"@ + rtpmaps_text(s.payload_types)
        + events_text(s.telephone_event) + ptime_text(s.ptime) + "a="@ + direction_name(s.sendrecv)
        + "\r\n"@
}

fn push_numbers(out: &mut String, v: &Vec<u8>, last: Option<u8>)
    ensures
        final(out)@ == old(out)@ + numbers_text(
            match last {
                Some(t) => v@.push(t),
                None => v@,
            },
        ),
{
    let mut i: usize = 0;
    assert(v@.take(0) =~= Seq::<u8>::empty());
    assert(out@ =~= old(out)@ + numbers_text(v@.take(0)));
    while i < v.len()
        invariant
            i <= v@.len(),
            out@ == old(out)@ + numbers_text(v@.take(i as int)),
        decreases v@.len() - i,
    {
        if i > 0 {
            out.append(" ");
        }
        text::push_dec(out, v[i] as u64);
        i += 1;
        proof {
            assert(v@.take(i as int).drop_last() =~= v@.take(i - 1));
            assert(v@.take(i as int).last() == v@[i - 1]);
            assert(out@ =~= old(out)@ + numbers_text(v@.take(i as int)));
        }
    }
    assert(v@.take(i as int) =~= v@);
    if let Some(t) = last {
        if i > 0 {
            out.append(" ");
        }
        text::push_dec(out, t as u64);
        proof {
            assert(v@.push(t).drop_last() =~= v@);
            assert(out@ =~= old(out)@ + numbers_text(v@.push(t)));
        }
    }
}

fn push_rtpmaps(out: &mut String, pts: &Vec<u8>)
    ensures
        final(out)@ == old(out)@ + rtpmaps_text(pts@),
{
    let mut i: usize = 0;
    assert(pts@.take(0) =~= Seq::<u8>::empty());
    assert(out@ =~= old(out)@ + rtpmaps_text(pts@.take(0)));
    while i < pts.len()
        invariant
            i <= pts@.len(),
            out@ == old(out)@ + rtpmaps_text(pts@.take(i as int)),
        decreases pts@.len() - i,
    {
        let pt = pts[i];
        if let Some(c) = Codec::from_payload_type(pt) {
            out.append("a=rtpmap:");
            text::push_dec(out, pt as u64);
            out.append(" ");
            out.append(c.rtpmap());
            out.append("\r\n");
        }
        i += 1;
        proof {
            assert(pts@.take(i as int).drop_last() =~= pts@.take(i - 1));
            assert(pts@.take(i as int).last() == pt);
            assert(out@ =~= old(out)@ + rtpmaps_text(pts@.take(i as int)));
        }
    }
    assert(pts@.take(i as int) =~= pts@);
}

impl Sdp {
    /// Our own offer, with the time that numbers the session.
    pub fn offer_at(
        address: IpAddr,
        port: u16,
        telephone_event: Option<u8>,
        ptime: u32,
        now: u64,
    ) -> (r: Sdp)
        ensures
            r@ == offered(address, port, telephone_event, ptime, now),
    {
        let mut payload_types: Vec<u8> = Vec::new();
        payload_types.push(Codec::Pcmu.payload_type());
        payload_types.push(Codec::Pcma.payload_type());
        assert(payload_types@ =~= seq![0u8, 8u8]);
        Sdp {
            origin_user: text::owned("modem2sip"),
            session_id: now,
            session_version: now,
            address,
            port,
            payload_types,
            telephone_event,
            ptime: Some(ptime),
            sendrecv: Direction::SendRecv,
        }
    }

    pub fn offer(address: IpAddr, port: u16, telephone_event: Option<u8>, ptime: u32) -> (r: Sdp)
        ensures
            exists|now: u64|
                r@ == #[trigger] offered(address, port, telephone_event, ptime, now),
    {
        let now = auth::unix_now() as u64;
        Sdp::offer_at(address, port, telephone_event, ptime, now)
    }

    pub fn parse(s: &str) -> (r: Option<Sdp>)
        ensures
            match r {
                Some(d) => session_of(s@) == Some(d@),
                None => session_of(s@).is_none(),
            },
    {
        let c = text::chars_of(s);
        let ls = text::lines_of(c.as_slice());
        let ghost all = text::lines(s@);
        let mut p = Reading {
            address: None,
            media_address: None,
            port: 0,
            payload_types: Vec::new(),
            telephone_event: None,
            ptime: None,
            direction: Direction::SendRecv,
            in_audio: false,
            seen_media: false,
        };
        let mut i: usize = 0;
        assert(all.take(0) =~= Seq::<Seq<char>>::empty());
        assert(p@ =~= nothing_read());
        while i < ls.len()
            invariant
                i <= ls@.len(),
                text::slices(ls@) == all,
                p@ == lines_read(all.take(i as int)),
            decreases ls@.len() - i,
        {
            proof {
                assert(all.take(i + 1).drop_last() =~= all.take(i as int));
                assert(all.take(i + 1).last() == ls@[i as int]@);
            }
            read_line(ls[i], &mut p);
            i += 1;
        }
        assert(all.take(i as int) =~= all);
        if p.payload_types.len() == 0 {
            return None;
        }
        let address = match (p.media_address, p.address) {
            (Some(a), _) => a,
            (None, Some(a)) => a,
            (None, None) => IpAddr::V4(0),
        };
        Some(
            Sdp {
                origin_user: text::owned("-"),
                session_id: 0,
                session_version: 0,
                address,
                port: p.port,
                payload_types: p.payload_types,
                telephone_event: p.telephone_event,
                ptime: p.ptime,
                sendrecv: p.direction,
            },
        )
    }

    /// Pick the first codec we support from a remote offer or answer.
    pub fn negotiate(&self) -> (r: Option<Codec>)
        ensures
            r == first_codec(self@.payload_types),
    {
        let ghost all = self.payload_types@;
        let mut i: usize = 0;
        assert(all.skip(0) =~= all);
        while i < self.payload_types.len()
            invariant
                i <= self.payload_types@.len(),
                all == self.payload_types@,
                first_codec(all) == first_codec(all.skip(i as int)),
            decreases self.payload_types@.len() - i,
        {
            assert(all.skip(i as int).skip(1) =~= all.skip(i + 1));
            if let Some(c) = Codec::from_payload_type(self.payload_types[i]) {
                return Some(c);
            }
            i += 1;
        }
        None
    }

    /// Is there somewhere to actually send RTP?
    ///
    /// A rejected or held stream is signalled with port 0 or a null connection address; accepting
    /// one leaves the sender blasting packets at loopback for the whole call.
    pub fn has_media(&self) -> (r: bool)
        ensures
            r == media_there(self@),
    {
        self.port != 0 && !self.address.is_unspecified()
    }

    /// Build an answer for `self`, a received offer, with the time that numbers the session.
    pub fn answer_at(
        &self,
        address: IpAddr,
        port: u16,
        codec: Codec,
        dtmf_pt: Option<u8>,
        ptime: u32,
        now: u64,
    ) -> (r: Sdp)
        ensures
            r@ == answered(self@, address, port, codec, dtmf_pt, ptime, now),
    {
        let mut payload_types: Vec<u8> = Vec::new();
        payload_types.push(codec.payload_type());
        assert(payload_types@ =~= seq![codec_number(codec)]);
        Sdp {
            origin_user: text::owned("modem2sip"),
            session_id: now,
            session_version: now,
            address,
            port,
            payload_types,
            // Echo the payload type the peer offered, not our own: an answer may only name payload
            // types that were in the offer.
            telephone_event: match dtmf_pt {
                Some(_) => self.telephone_event,
                None => None,
            },
            ptime: Some(ptime),
            sendrecv: self.sendrecv.reversed(),
        }
    }

    /// Build an answer for `self`, a received offer, using our own transport.
    pub fn answer(
        &self,
        address: IpAddr,
        port: u16,
        codec: Codec,
        dtmf_pt: Option<u8>,
        ptime: u32,
    ) -> (r: Sdp)
        ensures
            exists|now: u64|
                r@ == #[trigger] answered(self@, address, port, codec, dtmf_pt, ptime, now),
    {
        let now = auth::unix_now() as u64;
        self.answer_at(address, port, codec, dtmf_pt, ptime, now)
    }

    /// The description as it is written.
    pub fn to_string(&self) -> (r: String)
        ensures
            r@ == session_text(self@),
    {
        let family = if self.address.is_ipv6() {
            "IP6"
        } else {
            "IP4"
        };
        let mut s = text::owned("v=0\r\no=");
        s.append(self.origin_user.as_str());
        s.append(" ");
        let id = text::decimal(self.session_id);
        s.append(id.as_str());
        s.append(" ");
        let version = text::decimal(self.session_version);
        s.append(version.as_str());
        s.append(" IN ");
        s.append(family);
        s.append(" ");
        let ip = net::ip_string(self.address);
        s.append(ip.as_str());
        s.append("\r\ns=modem2sip\r\nc=IN ");
        s.append(family);
        s.append(" ");
        s.append(ip.as_str());
        s.append("\r\nt=0 0\r\nm=audio ");
        let port = text::decimal(self.port as u64);
        s.append(port.as_str());
        s.append(" RTP/AVP ");
        assert(s@ == session_head(self@));
        push_numbers(&mut s, &self.payload_types, self.telephone_event);
        s.append("\r\n");
        push_rtpmaps(&mut s, &self.payload_types);
        let ghost s1 = s@;
        if let Some(te) = self.telephone_event {
            s.append("a=rtpmap:");
            text::push_dec(&mut s, te as u64);
            s.append(" telephone-event/8000\r\na=fmtp:");
            text::push_dec(&mut s, te as u64);
            s.append(" 0-16\r\n");
        }
        assert(s@ =~= s1 + events_text(self@.telephone_event));
        let ghost s2 = s@;
        if let Some(n) = self.ptime {
            s.append("a=ptime:");
            text::push_dec(&mut s, n as u64);
            s.append("\r\n");
        }
        assert(s@ =~= s2 + ptime_text(self@.ptime));
        s.append("a=");
        s.append(self.sendrecv.as_str());
        s.append("\r\n");
        s
    }
}

/// An answer names no payload type that the offer did not: its codec is the negotiated one, and its
/// telephone events are those offered, or none.
pub proof fn law_an_answer_names_only_what_was_offered(
    offer: Session,
    address: IpAddr,
    port: u16,
    dtmf_pt: Option<u8>,
    ptime: u32,
    now: u64,
)
    requires
        first_codec(offer.payload_types).is_some(),
    ensures
        ({
            let c = first_codec(offer.payload_types).unwrap();
            let a = answered(offer, address, port, c, dtmf_pt, ptime, now);
            &&& forall|i: int|
                0 <= i < a.payload_types.len() ==> offer.payload_types.contains(
                    #[trigger] a.payload_types[i],
                )
            &&& a.telephone_event == offer.telephone_event || a.telephone_event.is_none()
            &&& a.sendrecv == mirrored(offer.sendrecv)
        }),
{
    lemma_first_codec(offer.payload_types);
}

proof fn lemma_first_codec(pts: Seq<u8>)
    requires
        first_codec(pts).is_some(),
    ensures
        pts.contains(codec_number(first_codec(pts).unwrap())),
    decreases pts.len(),
{
    if codec_of(pts[0]).is_some() {
        assert(pts[0] == codec_number(first_codec(pts).unwrap()));
    } else {
        lemma_first_codec(pts.skip(1));
        let n = codec_number(first_codec(pts).unwrap());
        let i = choose|i: int| 0 <= i < pts.skip(1).len() && pts.skip(1)[i] == n;
        assert(pts[i + 1] == n);
    }
}

} // verus!
