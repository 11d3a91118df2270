//! MMS encapsulation (OMA MMS-ENC): decode M-Notification.ind and M-Retrieve.conf, encode
//! M-Send.req, M-NotifyResp.ind and M-Acknowledge.ind.
use vstd::prelude::*;
use vstd::utf8::*;

use super::wsp;
use super::wsp::Reader;
use crate::text;

pub mod field;
pub mod msg_type;
pub mod round_trip;

verus! {

/// MMS version 1.2 (0x92 = 0x80 | 0x12).
pub const VERSION_1_2: u8 = 0x92;

// ------------------------------------------------------------------ parts

#[derive(Debug)]
pub struct MmsPart {
    pub content_type: String,
    pub params: Vec<(String, String)>,
    pub content_id: Option<String>,
    pub content_location: Option<String>,
    pub data: Vec<u8>,
}

/// A part, mathematically.
#[verifier::ext_equal]
pub struct Part {
    pub content_type: Seq<char>,
    pub params: Seq<(Seq<char>, Seq<char>)>,
    pub content_id: Option<Seq<char>>,
    pub content_location: Option<Seq<char>>,
    pub data: Seq<u8>,
}

impl View for MmsPart {
    type V = Part;

    open spec fn view(&self) -> Part {
        Part {
            content_type: self.content_type@,
            params: text::pairs(self.params@),
            content_id: text::opt_text(self.content_id),
            content_location: text::opt_text(self.content_location),
            data: self.data@,
        }
    }
}

pub open spec fn part_views(v: Seq<MmsPart>) -> Seq<Part> {
    Seq::new(v.len(), |i: int| v[i]@)
}

pub open spec fn plain_part(content_type: Seq<char>, data: Seq<u8>) -> Part {
    Part { content_type, params: seq![], content_id: None, content_location: None, data }
}

/// The first parameter that names a file.
pub open spec fn file_param(v: Seq<(Seq<char>, Seq<char>)>) -> Option<Seq<char>>
    decreases v.len(),
{
    if v.len() == 0 {
        None
    } else if v[0].0 == "name"@ || v[0].0 == "filename"@ {
        Some(v[0].1)
    } else {
        file_param(v.skip(1))
    }
}

pub open spec fn part_name(p: Part) -> Option<Seq<char>> {
    match file_param(p.params) {
        Some(n) => Some(n),
        None => p.content_location,
    }
}

pub open spec fn is_text_type(t: Seq<char>) -> bool {
    text::has_prefix(t, "text/"@)
}

pub open spec fn is_smil_type(t: Seq<char>) -> bool {
    text::find_text(t, "smil"@) >= 0
}

/// The text of a text part, in the charset its parameters name, or UTF-8.
pub open spec fn part_text(p: Part) -> Option<Seq<char>> {
    if is_text_type(p.content_type) {
        Some(
            match text::lookup(p.params, "charset"@) {
                Some(c) => wsp::text_or_utf8(c, p.data),
                None => wsp::text_or_utf8("UTF-8"@, p.data),
            },
        )
    } else {
        None
    }
}

impl MmsPart {
    pub fn new(content_type: &str, data: Vec<u8>) -> (r: Self)
        ensures
            r@ == plain_part(content_type@, data@),
    {
        let r = Self {
            content_type: text::owned(content_type),
            params: Vec::new(),
            content_id: None,
            content_location: None,
            data,
        };
        assert(r@ =~= plain_part(content_type@, data@));
        r
    }

    /// Best-effort file name from the content-type parameters.
    pub fn name(&self) -> (r: Option<String>)
        ensures
            text::opt_text(r) == part_name(self@),
    {
        let ghost all = text::pairs(self.params@);
        let mut i: usize = 0;
        assert(all.skip(0) =~= all);
        while i < self.params.len()
            invariant
                i <= self.params@.len(),
                all == text::pairs(self.params@),
                file_param(all) == file_param(all.skip(i as int)),
            decreases self.params@.len() - i,
        {
            let key = self.params[i].0.as_str();
            if text::str_is(key, "name") || text::str_is(key, "filename") {
                return Some(self.params[i].1.clone());
            }
            assert(all.skip(i as int).skip(1) =~= all.skip(i + 1));
            i += 1;
        }
        text::copy_option(&self.content_location)
    }

    pub fn is_text(&self) -> (r: bool)
        ensures
            r == is_text_type(self.content_type@),
    {
        text::starts_with(text::chars_of(self.content_type.as_str()).as_slice(), "text/")
    }

    pub fn text(&self) -> (r: Option<String>)
        requires
            wsp::decodable(self.data@.len()),
        ensures
            text::opt_text(r) == part_text(self@),
    {
        if !self.is_text() {
            return None;
        }
        match text::look_up(&self.params, "charset") {
            Some(c) => Some(wsp::decode_or_utf8(c, self.data.as_slice())),
            None => Some(wsp::decode_or_utf8("UTF-8", self.data.as_slice())),
        }
    }

    fn is_smil(&self) -> (r: bool)
        ensures
            r == is_smil_type(self.content_type@),
    {
        text::contains_text(text::chars_of(self.content_type.as_str()).as_slice(), "smil")
    }
}

// ------------------------------------------------------------------ messages

#[derive(Debug)]
pub struct MmsMessage {
    pub message_type: u8,
    pub transaction_id: Option<String>,
    pub version: Option<u8>,
    pub from: Option<String>,
    pub to: Vec<String>,
    pub cc: Vec<String>,
    pub subject: Option<String>,
    pub date: Option<u64>,
    pub message_id: Option<String>,
    pub message_class: Option<String>,
    /// M-Notification.ind: URL the body must be fetched from.
    pub content_location: Option<String>,
    pub message_size: Option<u64>,
    pub expiry: Option<u64>,
    pub response_status: Option<u8>,
    pub retrieve_status: Option<u8>,
    pub response_text: Option<String>,
    pub content_type: Option<String>,
    pub content_type_params: Vec<(String, String)>,
    pub parts: Vec<MmsPart>,
}

/// A message, mathematically.
#[verifier::ext_equal]
pub struct Message {
    pub message_type: u8,
    pub transaction_id: Option<Seq<char>>,
    pub version: Option<u8>,
    pub from: Option<Seq<char>>,
    pub to: Seq<Seq<char>>,
    pub cc: Seq<Seq<char>>,
    pub subject: Option<Seq<char>>,
    pub date: Option<nat>,
    pub message_id: Option<Seq<char>>,
    pub message_class: Option<Seq<char>>,
    pub content_location: Option<Seq<char>>,
    pub message_size: Option<nat>,
    pub expiry: Option<nat>,
    pub response_status: Option<u8>,
    pub retrieve_status: Option<u8>,
    pub response_text: Option<Seq<char>>,
    pub content_type: Option<Seq<char>>,
    pub content_type_params: Seq<(Seq<char>, Seq<char>)>,
    pub parts: Seq<Part>,
}

impl View for MmsMessage {
    type V = Message;

    open spec fn view(&self) -> Message {
        Message {
            message_type: self.message_type,
            transaction_id: text::opt_text(self.transaction_id),
            version: self.version,
            from: text::opt_text(self.from),
            to: text::texts(self.to@),
            cc: text::texts(self.cc@),
            subject: text::opt_text(self.subject),
            date: wsp::opt_u64(self.date),
            message_id: text::opt_text(self.message_id),
            message_class: text::opt_text(self.message_class),
            content_location: text::opt_text(self.content_location),
            message_size: wsp::opt_u64(self.message_size),
            expiry: wsp::opt_u64(self.expiry),
            response_status: self.response_status,
            retrieve_status: self.retrieve_status,
            response_text: text::opt_text(self.response_text),
            content_type: text::opt_text(self.content_type),
            content_type_params: text::pairs(self.content_type_params@),
            parts: part_views(self.parts@),
        }
    }
}

pub open spec fn empty_message() -> Message {
    Message {
        message_type: 0,
        transaction_id: None,
        version: None,
        from: None,
        to: seq![],
        cc: seq![],
        subject: None,
        date: None,
        message_id: None,
        message_class: None,
        content_location: None,
        message_size: None,
        expiry: None,
        response_status: None,
        retrieve_status: None,
        response_text: None,
        content_type: None,
        content_type_params: seq![],
        parts: seq![],
    }
}

impl Default for MmsMessage {
    fn default() -> (r: Self)
        ensures
            r@ == empty_message(),
    {
        let r = MmsMessage {
            message_type: 0,
            transaction_id: None,
            version: None,
            from: None,
            to: Vec::new(),
            cc: Vec::new(),
            subject: None,
            date: None,
            message_id: None,
            message_class: None,
            content_location: None,
            message_size: None,
            expiry: None,
            response_status: None,
            retrieve_status: None,
            response_text: None,
            content_type: None,
            content_type_params: Vec::new(),
            parts: Vec::new(),
        };
        assert(r@ =~= empty_message());
        r
    }
}

/// The parts that are shown as text.
pub open spec fn is_body_part(p: Part) -> bool {
    is_text_type(p.content_type) && !is_smil_type(p.content_type)
}

/// The texts of the body parts, in order.
pub open spec fn body_texts(parts: Seq<Part>) -> Seq<Seq<char>>
    decreases parts.len(),
{
    if parts.len() == 0 {
        seq![]
    } else if is_body_part(parts.last()) {
        body_texts(parts.drop_last()).push(part_text(parts.last()).unwrap())
    } else {
        body_texts(parts.drop_last())
    }
}

/// The parts that are neither text nor layout, in order.
pub open spec fn attached(parts: Seq<Part>) -> Seq<Part>
    decreases parts.len(),
{
    if parts.len() == 0 {
        seq![]
    } else if is_attachment(parts.last()) {
        attached(parts.drop_last()).push(parts.last())
    } else {
        attached(parts.drop_last())
    }
}

/// A part that is neither text nor layout.
pub open spec fn is_attachment(p: Part) -> bool {
    !is_text_type(p.content_type) && !is_smil_type(p.content_type)
}

/// Every part is one thing: a text of the body, the layout or an attachment. The attachments are all
/// parts that are attachments, in order, and there is a body exactly where some part is a text of it.
pub proof fn law_a_part_is_one_thing(parts: Seq<Part>)
    ensures
        attached(parts) == parts.filter(|p: Part| is_attachment(p)),
        body_texts(parts) == parts.filter(|p: Part| is_body_part(p)).map_values(
            |p: Part| part_text(p).unwrap(),
        ),
        body_texts(parts).len() > 0 <==> exists|i: int|
            0 <= i < parts.len() && is_body_part(#[trigger] parts[i]),
        forall|p: Part| #[trigger] is_attachment(p) ==> !is_body_part(p) && !is_smil_type(p.content_type),
        forall|p: Part| #[trigger] is_body_part(p) ==> !is_smil_type(p.content_type),
        forall|p: Part|
            #[trigger] is_attachment(p) || is_body_part(p) || is_smil_type(p.content_type),
    decreases parts.len(),
{
    let attachment = |p: Part| is_attachment(p);
    let body = |p: Part| is_body_part(p);
    let shown = |p: Part| part_text(p).unwrap();
    reveal(Seq::filter);
    if parts.len() > 0 {
        let front = parts.drop_last();
        law_a_part_is_one_thing(front);
        assert(parts.filter(attachment) =~= if attachment(parts.last()) {
            front.filter(attachment).push(parts.last())
        } else {
            front.filter(attachment)
        });
        assert(parts.filter(body) =~= if body(parts.last()) {
            front.filter(body).push(parts.last())
        } else {
            front.filter(body)
        });
        assert(body_texts(parts) =~= parts.filter(body).map_values(shown));
        if body_texts(parts).len() > 0 {
            if is_body_part(parts.last()) {
                assert(is_body_part(parts[parts.len() - 1]));
            } else {
                let i = choose|i: int| 0 <= i < front.len() && is_body_part(#[trigger] front[i]);
                assert(is_body_part(parts[i]));
            }
        }
        if exists|i: int| 0 <= i < parts.len() && is_body_part(#[trigger] parts[i]) {
            let i = choose|i: int| 0 <= i < parts.len() && is_body_part(#[trigger] parts[i]);
            if i < front.len() {
                assert(is_body_part(front[i]));
            }
        }
    } else {
        assert(attached(parts) =~= parts.filter(attachment));
        assert(body_texts(parts) =~= parts.filter(body).map_values(shown));
    }
}

/// What stands before the first slash, without the white space around it.
pub open spec fn address_part(a: Seq<char>) -> Seq<char> {
    text::trim(a.take(text::find(a, '/')))
}

impl MmsMessage {
    /// The texts of the parts that carry actual content (SMIL layout excluded).
    pub fn body_text(&self) -> (r: Option<String>)
        requires
            forall|i: int|
                0 <= i < self.parts@.len() ==> wsp::decodable(
                    #[trigger] self.parts@[i].data@.len(),
                ),
        ensures
            text::opt_text(r) == if body_texts(self@.parts).len() == 0 {
                None
            } else {
                Some(text::join(body_texts(self@.parts), "\n"@))
            },
    {
        let mut texts: Vec<String> = Vec::new();
        let mut i: usize = 0;
        let ghost all = part_views(self.parts@);
        assert(text::texts(texts@) =~= Seq::<Seq<char>>::empty());
        while i < self.parts.len()
            invariant
                forall|j: int|
                    0 <= j < self.parts@.len() ==> wsp::decodable(
                        #[trigger] self.parts@[j].data@.len(),
                    ),
                i <= self.parts@.len(),
                all == part_views(self.parts@),
                text::texts(texts@) == body_texts(all.take(i as int)),
            decreases self.parts@.len() - i,
        {
            let part = &self.parts[i];
            let ghost before = texts@;
            proof {
                assert(all.take(i + 1).drop_last() =~= all.take(i as int));
                assert(all.take(i + 1).last() == self.parts@[i as int]@);
                assert(wsp::decodable(self.parts@[i as int].data@.len()));
            }
            if part.is_text() && !part.is_smil() {
                if let Some(t) = part.text() {
                    texts.push(t);
                    assert(text::texts(texts@) =~= text::texts(before).push(t@));
                }
            }
            i += 1;
        }
        assert(all.take(i as int) =~= all);
        if texts.len() == 0 {
            None
        } else {
            Some(text::joined(texts.as_slice(), "\n"))
        }
    }

    pub fn attachments(&self) -> (r: Vec<&MmsPart>)
        ensures
            Seq::new(r@.len(), |i: int| r@[i]@) == attached(self@.parts),
    {
        let mut out: Vec<&MmsPart> = Vec::new();
        let mut i: usize = 0;
        let ghost all = part_views(self.parts@);
        assert(Seq::new(out@.len(), |j: int| out@[j]@) =~= Seq::<Part>::empty());
        while i < self.parts.len()
            invariant
                i <= self.parts@.len(),
                all == part_views(self.parts@),
                Seq::new(out@.len(), |j: int| out@[j]@) == attached(all.take(i as int)),
            decreases self.parts@.len() - i,
        {
            let part = &self.parts[i];
            let ghost before = out@;
            proof {
                assert(all.take(i + 1).drop_last() =~= all.take(i as int));
                assert(all.take(i + 1).last() == self.parts@[i as int]@);
            }
            if !part.is_text() && !part.is_smil() {
                out.push(part);
                assert(Seq::new(out@.len(), |j: int| out@[j]@) =~= Seq::new(
                    before.len(),
                    |j: int| before[j]@,
                ).push(part@));
            }
            i += 1;
        }
        assert(all.take(i as int) =~= all);
        out
    }

    /// Sender without the `/TYPE=PLMN` suffix MMS addresses carry.
    pub fn sender(&self) -> (r: Option<String>)
        ensures
            text::opt_text(r) == match self@.from {
                Some(a) => Some(address_part(a)),
                None => None,
            },
    {
        match &self.from {
            Some(a) => Some(strip_address_type(a.as_str())),
            None => None,
        }
    }
}

pub fn strip_address_type(addr: &str) -> (r: String)
    ensures
        r@ == address_part(addr@),
{
    let c = text::chars_of(addr);
    let n = text::index_of(c.as_slice(), '/');
    text::string_of(text::trimmed(text::take(c.as_slice(), n)))
}

// ------------------------------------------------------------------ decoding, mathematically

/// What follows a header.
#[derive(Clone, Copy, PartialEq, Eq, Structural)]
pub enum Flow {
    Continue,
    /// What is left cannot be read.
    Stop,
    /// The header was the content type: the body follows.
    Body,
    /// A content type that cannot be read.
    Malformed,
}

pub open spec fn class_name(v: u8) -> Seq<char> {
    if v == 0x80 {
        "personal"@
    } else if v == 0x81 {
        "advertisement"@
    } else if v == 0x82 {
        "informational"@
    } else if v == 0x83 {
        "auto"@
    } else {
        "unknown"@
    }
}

/// The bytes a length in front of them declares, cut down to those that are there.
pub open spec fn sized_read(s: Seq<u8>) -> (Seq<u8>, nat) {
    let (len, n) = wsp::bounded_read(s);
    let l = match len {
        Some(l) => l,
        None => 0,
    };
    (s.subrange(n as int, (n + l) as int), n + l)
}

pub open spec fn byte_read(s: Seq<u8>) -> (Option<u8>, nat) {
    if s.len() > 0 {
        (Some(s[0]), 1)
    } else {
        (None, 0)
    }
}

pub open spec fn push_some(v: Seq<Seq<char>>, t: Option<Seq<char>>) -> Seq<Seq<char>> {
    match t {
        Some(t) => v.push(t),
        None => v,
    }
}

/// The value of the header `b`: what it makes of the message, and its size.
#[verifier::opaque]
pub open spec fn field_read(b: u8, r: Seq<u8>, m: Message) -> (Flow, Message, nat) {
    if b == field::MESSAGE_TYPE {
        let (v, n) = byte_read(r);
        (
            Flow::Continue,
            Message {
                message_type: match v {
                    Some(v) => v,
                    None => 0,
                },
                ..m
            },
            n,
        )
    } else if b == field::TRANSACTION_ID {
        let (v, n) = wsp::text_read(r);
        (Flow::Continue, Message { transaction_id: v, ..m }, n)
    } else if b == field::MMS_VERSION {
        let (v, n) = byte_read(r);
        (Flow::Continue, Message { version: v, ..m }, n)
    } else if b == field::FROM {
        let (inner, n) = sized_read(r);
        let from = if inner.len() > 0 && inner[0] == 0x80 {
            wsp::encoded_read(inner.skip(1)).0
        } else {
            None
        };
        (Flow::Continue, Message { from, ..m }, n)
    } else if b == field::TO {
        let (v, n) = wsp::encoded_read(r);
        (Flow::Continue, Message { to: push_some(m.to, v), ..m }, n)
    } else if b == field::CC {
        let (v, n) = wsp::encoded_read(r);
        (Flow::Continue, Message { cc: push_some(m.cc, v), ..m }, n)
    } else if b == field::SUBJECT {
        let (v, n) = wsp::encoded_read(r);
        (Flow::Continue, Message { subject: v, ..m }, n)
    } else if b == field::MESSAGE_ID {
        let (v, n) = wsp::text_read(r);
        (Flow::Continue, Message { message_id: v, ..m }, n)
    } else if b == field::CONTENT_LOCATION {
        let (v, n) = wsp::text_read(r);
        (Flow::Continue, Message { content_location: v, ..m }, n)
    } else if b == field::DATE {
        let (v, n) = wsp::long_read(r);
        (Flow::Continue, Message { date: v, ..m }, n)
    } else if b == field::MESSAGE_SIZE {
        let (v, n) = wsp::integer_read(r);
        (Flow::Continue, Message { message_size: v, ..m }, n)
    } else if b == field::MESSAGE_CLASS {
        if r.len() > 0 && r[0] >= 128 {
            (Flow::Continue, Message { message_class: Some(class_name(r[0])), ..m }, 1)
        } else {
            let (v, n) = wsp::text_read(r);
            (Flow::Continue, Message { message_class: v, ..m }, n)
        }
    } else if b == field::EXPIRY {
        let (inner, n) = sized_read(r);
        let expiry = if inner.len() > 0 {
            wsp::integer_read(inner.skip(1)).0
        } else {
            None
        };
        (Flow::Continue, Message { expiry, ..m }, n)
    } else if b == field::RESPONSE_STATUS {
        let (v, n) = byte_read(r);
        (Flow::Continue, Message { response_status: v, ..m }, n)
    } else if b == field::RETRIEVE_STATUS {
        let (v, n) = byte_read(r);
        (Flow::Continue, Message { retrieve_status: v, ..m }, n)
    } else if b == field::RESPONSE_TEXT || b == field::RETRIEVE_TEXT {
        let (v, n) = wsp::encoded_read(r);
        (Flow::Continue, Message { response_text: v, ..m }, n)
    } else if b == field::CONTENT_TYPE {
        let (v, n) = wsp::type_read(r);
        match v {
            Some((t, p)) => (
                Flow::Body,
                Message { content_type: Some(t), content_type_params: p, ..m },
                n,
            ),
            None => (Flow::Malformed, m, n),
        }
    } else {
        let (ok, n) = wsp::skip_read(r);
        (
            if ok {
                Flow::Continue
            } else {
                Flow::Stop
            },
            m,
            n,
        )
    }
}

/// One header: an application-specific one with a textual name is skipped.
pub open spec fn header_read(s: Seq<u8>, m: Message) -> (Flow, Message, nat) {
    if s[0] < 128 {
        let n = wsp::text_read(s).1;
        let (ok, k) = wsp::skip_read(s.skip(n as int));
        (
            if ok {
                Flow::Continue
            } else {
                Flow::Stop
            },
            m,
            n + k,
        )
    } else {
        let (f, m1, n) = field_read(s[0], s.skip(1), m);
        (f, m1, n + 1)
    }
}

/// All headers: nothing where the content type is malformed, otherwise the message and the body
/// that follows its content type.
pub open spec fn headers_read(s: Seq<u8>, m: Message) -> Option<(Message, Option<Seq<u8>>)>
    decreases s.len(),
{
    if s.len() == 0 {
        Some((m, None))
    } else {
        let (f, m1, n) = header_read(s, m);
        match f {
            Flow::Continue => if 0 < n <= s.len() {
                headers_read(s.skip(n as int), m1)
            } else {
                Some((m1, None))
            },
            Flow::Stop => Some((m1, None)),
            Flow::Body => Some((m1, Some(s.skip(n as int)))),
            Flow::Malformed => None,
        }
    }
}

pub open spec fn is_angle(c: char) -> bool {
    c == '<' || c == '>'
}

pub open spec fn trim_angles_start(s: Seq<char>) -> Seq<char>
    decreases s.len(),
{
    if s.len() > 0 && is_angle(s[0]) {
        trim_angles_start(s.skip(1))
    } else {
        s
    }
}

pub open spec fn trim_angles_end(s: Seq<char>) -> Seq<char>
    decreases s.len(),
{
    if s.len() > 0 && is_angle(s.last()) {
        trim_angles_end(s.drop_last())
    } else {
        s
    }
}

/// The text without the angle brackets around it.
pub open spec fn trim_angles(s: Seq<char>) -> Seq<char> {
    trim_angles_end(trim_angles_start(s))
}

/// One header of a part, after its content type: whether to go on, the part, and the size.
pub open spec fn part_header_read(s: Seq<u8>, p: Part) -> (bool, Part, nat) {
    if s[0] == 0xc0 {
        let (v, n) = wsp::text_read(s.skip(1));
        (
            true,
            Part {
                content_id: match v {
                    Some(t) => Some(trim_angles(t)),
                    None => None,
                },
                ..p
            },
            n + 1,
        )
    } else if s[0] == 0x8e {
        let (v, n) = wsp::text_read(s.skip(1));
        (true, Part { content_location: v, ..p }, n + 1)
    } else {
        let n = if s[0] < 128 {
            wsp::text_read(s).1
        } else {
            1
        };
        let (ok, k) = wsp::skip_read(s.skip(n as int));
        (ok, p, n + k)
    }
}

pub open spec fn part_headers_read(s: Seq<u8>, p: Part) -> Part
    decreases s.len(),
{
    if s.len() == 0 {
        p
    } else {
        let (ok, p1, n) = part_header_read(s, p);
        if ok && 0 < n <= s.len() {
            part_headers_read(s.skip(n as int), p1)
        } else {
            p1
        }
    }
}

/// A part: its headers and its data.
#[verifier::opaque]
pub open spec fn part_of(headers: Seq<u8>, data: Seq<u8>) -> Part {
    let (v, n) = wsp::type_read(headers);
    let (t, params) = match v {
        Some(v) => v,
        None => ("application/octet-stream"@, seq![]),
    };
    part_headers_read(
        headers.skip(n as int),
        Part { content_type: t, params, content_id: None, content_location: None, data },
    )
}

/// One entry of a multipart body: two sizes, headers, data.
pub open spec fn entry_read(s: Seq<u8>) -> Option<(Part, nat)> {
    let (h, n1) = wsp::uintvar_read(s);
    let (d, n2) = wsp::uintvar_read(s.skip(n1 as int));
    match (h, d) {
        (Some(h), Some(d)) => if h <= usize::MAX && d <= usize::MAX && n1 + n2 + h + d <= s.len() {
            let a = n1 + n2;
            Some(
                (
                    part_of(
                        s.subrange(a as int, (a + h) as int),
                        s.subrange((a + h) as int, (a + h + d) as int),
                    ),
                    a + h + d,
                ),
            )
        } else {
            None
        },
        _ => None,
    }
}

/// Up to `k` entries, to the first that cannot be read.
pub open spec fn entries_read(s: Seq<u8>, k: nat) -> Seq<Part>
    decreases k,
{
    if k == 0 {
        seq![]
    } else {
        match entry_read(s) {
            Some((p, n)) => seq![p] + entries_read(s.skip(n as int), (k - 1) as nat),
            None => seq![],
        }
    }
}

/// A multipart body: a count, at most 256, and the entries.
pub open spec fn multipart_read(s: Seq<u8>) -> Seq<Part> {
    let (count, n) = wsp::uintvar_read(s);
    match count {
        Some(c) => entries_read(
            s.skip(n as int),
            if c <= 256 {
                c
            } else {
                256
            },
        ),
        None => seq![],
    }
}

pub open spec fn is_multipart_type(t: Seq<char>) -> bool {
    text::has_prefix(t, "multipart/"@) || text::has_prefix(t, "application/vnd.wap.multipart"@)
}

pub open spec fn body_parts(m: Message, body: Seq<u8>) -> Seq<Part> {
    let t = match m.content_type {
        Some(t) => t,
        None => seq![],
    };
    if is_multipart_type(t) {
        multipart_read(body)
    } else if body.len() > 0 {
        seq![
            Part {
                content_type: t,
                params: m.content_type_params,
                content_id: None,
                content_location: None,
                data: body,
            },
        ]
    } else {
        seq![]
    }
}

/// The message bytes stand for; nothing where its content type is malformed.
pub open spec fn message_of(data: Seq<u8>) -> Option<Message> {
    match headers_read(data, empty_message()) {
        Some((m, Some(body))) => Some(Message { parts: body_parts(m, body), ..m }),
        Some((m, None)) => Some(m),
        None => None,
    }
}

pub proof fn lemma_sized_bound(s: Seq<u8>)
    ensures
        sized_read(s).1 <= s.len(),
        wsp::bounded_read(s).1 <= s.len(),
        sized_read(s).0.len() <= s.len(),
{
    wsp::lemma_length_bound(s);
}

pub proof fn lemma_field_bound(b: u8, r: Seq<u8>, m: Message)
    ensures
        field_read(b, r, m).2 <= r.len(),
{
    reveal(field_read);
    wsp::law_reads_stay_inside(r);
    lemma_sized_bound(r);
}

pub proof fn lemma_header_bound(s: Seq<u8>, m: Message)
    requires
        s.len() > 0,
    ensures
        0 < header_read(s, m).2 <= s.len(),
{
    lemma_field_bound(s[0], s.skip(1), m);
    wsp::lemma_text_bound(s);
    wsp::law_reads_stay_inside(s.skip(wsp::text_read(s).1 as int));
}

pub proof fn lemma_part_header_bound(s: Seq<u8>, p: Part)
    requires
        s.len() > 0,
    ensures
        0 < part_header_read(s, p).2 <= s.len(),
{
    wsp::lemma_text_bound(s);
    wsp::lemma_text_bound(s.skip(1));
    wsp::law_reads_stay_inside(s.skip(1));
    wsp::law_reads_stay_inside(s.skip(wsp::text_read(s).1 as int));
}

// ------------------------------------------------------------------ decoding

/// Why a message cannot be decoded.
#[derive(Debug, Clone, Copy, PartialEq, Eq, Structural)]
pub enum PduError {
    MalformedContentType,
}

impl PduError {
    pub fn message(&self) -> (r: String)
        ensures
            r@ == "malformed MMS Content-Type"@,
    {
        text::owned("malformed MMS Content-Type")
    }
}

/// The bytes a length in front of them declares, cut down to those that are there.
fn sized<'a>(r: &mut Reader<'a>) -> (inner: Reader<'a>)
    ensures
        inner.rest() == sized_read(old(r).rest()).0,
        inner.pos == 0,
        final(r).advanced(old(r), sized_read(old(r).rest()).1),
{
    let ghost s = r.rest();
    proof {
        wsp::lemma_length_bound(s);
    }
    let len = match r.bounded_value_length() {
        Some(l) => l,
        None => 0,
    };
    let ghost n = wsp::bounded_read(s).1;
    assert(r.rest() =~= s.skip(n as int));
    let inner = r.inner(len);
    assert(inner.rest() =~= s.subrange(n as int, (n + len) as int));
    inner
}

fn class_text(v: u8) -> (r: String)
    ensures
        r@ == class_name(v),
{
    if v == 0x80 {
        text::owned("personal")
    } else if v == 0x81 {
        text::owned("advertisement")
    } else if v == 0x82 {
        text::owned("informational")
    } else if v == 0x83 {
        text::owned("auto")
    } else {
        text::owned("unknown")
    }
}

fn push_text(v: &mut Vec<String>, t: Option<String>)
    ensures
        text::texts(final(v)@) == push_some(text::texts(old(v)@), text::opt_text(t)),
{
    if let Some(t) = t {
        v.push(t);
        assert(text::texts(v@) =~= text::texts(old(v)@).push(t@));
    }
}

/// The value of the header `b`.
fn decode_field(b: u8, r: &mut Reader<'_>, msg: &mut MmsMessage) -> (flow: Flow)
    requires
        wsp::decodable(old(r).rest().len()),
    ensures
        flow == field_read(b, old(r).rest(), old(msg)@).0,
        final(msg)@ == field_read(b, old(r).rest(), old(msg)@).1,
        final(r).advanced(old(r), field_read(b, old(r).rest(), old(msg)@).2),
{
    reveal(field_read);
    let ghost s = r.rest();
    let ghost m = msg@;
    if b == field::MESSAGE_TYPE {
        msg.message_type = match r.u8() {
            Some(v) => v,
            None => 0,
        };
    } else if b == field::TRANSACTION_ID {
        msg.transaction_id = r.text_string();
    } else if b == field::MMS_VERSION {
        msg.version = r.u8();
    } else if b == field::FROM {
        proof {
            lemma_sized_bound(s);
        }
        let mut inner = sized(r);
        let token = inner.u8();
        msg.from = match token {
            // Anything else is the insert-address-token: the MMSC fills the address in.
            Some(t) => if t == 0x80 {
                inner.encoded_string()
            } else {
                None
            },
            None => None,
        };
    } else if b == field::TO {
        let v = r.encoded_string();
        push_text(&mut msg.to, v);
    } else if b == field::CC {
        let v = r.encoded_string();
        push_text(&mut msg.cc, v);
    } else if b == field::SUBJECT {
        msg.subject = r.encoded_string();
    } else if b == field::MESSAGE_ID {
        msg.message_id = r.text_string();
    } else if b == field::CONTENT_LOCATION {
        msg.content_location = r.text_string();
    } else if b == field::DATE {
        msg.date = r.long_int();
    } else if b == field::MESSAGE_SIZE {
        msg.message_size = r.integer_value();
    } else if b == field::MESSAGE_CLASS {
        let known = match r.peek() {
            Some(v) => v >= 0x80,
            None => false,
        };
        if known {
            msg.message_class = match r.u8() {
                Some(v) => Some(class_text(v)),
                None => None,
            };
        } else {
            msg.message_class = r.text_string();
        }
    } else if b == field::EXPIRY {
        let mut inner = sized(r);
        // The token that tells absolute and relative times apart.
        msg.expiry = match inner.u8() {
            Some(_) => inner.integer_value(),
            None => None,
        };
    } else if b == field::RESPONSE_STATUS {
        // Kept as the raw well-known value: 0x80 is "Ok" for both.
        msg.response_status = r.u8();
    } else if b == field::RETRIEVE_STATUS {
        msg.retrieve_status = r.u8();
    } else if b == field::RESPONSE_TEXT || b == field::RETRIEVE_TEXT {
        msg.response_text = r.encoded_string();
    } else if b == field::CONTENT_TYPE {
        match r.content_type() {
            Some((t, p)) => {
                msg.content_type = Some(t);
                msg.content_type_params = p;
                assert(msg@ =~= field_read(b, s, m).1);
                return Flow::Body;
            },
            None => {
                return Flow::Malformed;
            },
        }
    } else {
        return match r.skip_value() {
            Some(_) => Flow::Continue,
            None => Flow::Stop,
        };
    }
    assert(msg@ =~= field_read(b, s, m).1);
    Flow::Continue
}

/// One header.
fn decode_header(r: &mut Reader<'_>, msg: &mut MmsMessage) -> (flow: Flow)
    requires
        wsp::decodable(old(r).rest().len()),
        old(r).rest().len() > 0,
    ensures
        flow == header_read(old(r).rest(), old(msg)@).0,
        final(msg)@ == header_read(old(r).rest(), old(msg)@).1,
        final(r).advanced(old(r), header_read(old(r).rest(), old(msg)@).2),
{
    let ghost s = r.rest();
    match r.peek() {
        Some(b) => if b < 0x80 {
            proof {
                wsp::lemma_text_bound(s);
            }
            let _ = r.text_string();
            assert(r.rest() =~= s.skip(wsp::text_read(s).1 as int));
            match r.skip_value() {
                Some(_) => Flow::Continue,
                None => Flow::Stop,
            }
        } else {
            r.advance(1);
            decode_field(b, r, msg)
        },
        None => Flow::Stop,
    }
}

/// Decode a message.
pub fn decode(data: &[u8]) -> (res: Result<MmsMessage, PduError>)
    requires
        wsp::decodable(data@.len()),
    ensures
        match res {
            Ok(m) => message_of(data@) == Some(m@),
            Err(e) => message_of(data@).is_none() && e == PduError::MalformedContentType,
        },
{
    let mut r = Reader::new(data);
    let mut msg = MmsMessage::default();
    let mut body: Option<usize> = None;
    while !r.eof()
        invariant_except_break
            body.is_none(),
            r.data == data,
            wsp::decodable(r.rest().len()),
            headers_read(data@, empty_message()) == headers_read(r.rest(), msg@),
        ensures
            r.data == data,
            match body {
                Some(start) => start <= data@.len() && headers_read(data@, empty_message())
                    == Some((msg@, Some(data@.skip(start as int)))),
                None => headers_read(data@, empty_message()) == Some((msg@, None::<Seq<u8>>)),
            },
        decreases r.rest().len(),
    {
        let ghost s = r.rest();
        let ghost m = msg@;
        proof {
            lemma_header_bound(s, m);
        }
        let flow = decode_header(&mut r, &mut msg);
        assert(r.rest() =~= s.skip(header_read(s, m).2 as int));
        match flow {
            Flow::Continue => {},
            Flow::Stop => {
                break;
            },
            Flow::Body => {
                body = Some(r.pos);
                break;
            },
            Flow::Malformed => {
                return Err(PduError::MalformedContentType);
            },
        }
    }
    if let Some(start) = body {
        let bytes = vstd::slice::slice_subrange(data, start, data.len());
        let ghost m = msg@;
        assert(bytes@ =~= data@.skip(start as int));
        let ct = match &msg.content_type {
            Some(t) => t.clone(),
            None => String::new(),
        };
        msg.parts = if is_multipart(ct.as_str()) {
            decode_multipart(bytes)
        } else if bytes.len() > 0 {
            let part = MmsPart {
                content_type: ct,
                params: text::copy_pairs(&msg.content_type_params),
                content_id: None,
                content_location: None,
                data: vstd::slice::slice_to_vec(bytes),
            };
            let mut parts: Vec<MmsPart> = Vec::new();
            parts.push(part);
            assert(part_views(parts@) =~= body_parts(m, bytes@));
            parts
        } else {
            let parts: Vec<MmsPart> = Vec::new();
            assert(part_views(parts@) =~= body_parts(m, bytes@));
            parts
        };
        assert(msg@ =~= (Message { parts: body_parts(m, bytes@), ..m }));
    }
    Ok(msg)
}

fn is_multipart(content_type: &str) -> (r: bool)
    ensures
        r == is_multipart_type(content_type@),
{
    let c = text::chars_of(content_type);
    text::starts_with(c.as_slice(), "multipart/") || text::starts_with(
        c.as_slice(),
        "application/vnd.wap.multipart",
    )
}

fn angles_trimmed(s: &[char]) -> (r: &[char])
    ensures
        r@ == trim_angles(s@),
{
    let mut i: usize = 0;
    assert(s@.skip(0) =~= s@);
    while i < s.len() && (s[i] == '<' || s[i] == '>')
        invariant
            i <= s@.len(),
            trim_angles_start(s@) == trim_angles_start(s@.skip(i as int)),
        decreases s@.len() - i,
    {
        assert(s@.skip(i as int).skip(1) =~= s@.skip(i + 1));
        i += 1;
    }
    let t = text::skip(s, i);
    let mut n: usize = t.len();
    assert(t@.take(n as int) =~= t@);
    while n > 0 && (t[n - 1] == '<' || t[n - 1] == '>')
        invariant
            n <= t@.len(),
            trim_angles_end(t@) == trim_angles_end(t@.take(n as int)),
        decreases n,
    {
        assert(t@.take(n as int).drop_last() =~= t@.take(n - 1));
        n -= 1;
    }
    text::take(t, n)
}

/// One header of a part; whether to go on.
fn decode_part_header(hr: &mut Reader<'_>, part: &mut MmsPart) -> (ok: bool)
    requires
        old(hr).rest().len() > 0,
    ensures
        ok == part_header_read(old(hr).rest(), old(part)@).0,
        final(part)@ == part_header_read(old(hr).rest(), old(part)@).1,
        final(hr).advanced(old(hr), part_header_read(old(hr).rest(), old(part)@).2),
{
    let ghost s = hr.rest();
    let ghost p = part@;
    let h = match hr.peek() {
        Some(h) => h,
        None => {
            return false;
        },
    };
    if h == 0xc0 {
        hr.advance(1);
        part.content_id = match hr.text_string() {
            Some(t) => Some(
                text::string_of(angles_trimmed(text::chars_of(t.as_str()).as_slice())),
            ),
            None => None,
        };
        assert(part@ =~= part_header_read(s, p).1);
        true
    } else if h == 0x8e {
        hr.advance(1);
        part.content_location = hr.text_string();
        assert(part@ =~= part_header_read(s, p).1);
        true
    } else {
        proof {
            wsp::lemma_text_bound(s);
        }
        if h < 0x80 {
            let _ = hr.text_string();
            assert(hr.rest() =~= s.skip(wsp::text_read(s).1 as int));
        } else {
            hr.advance(1);
        }
        hr.skip_value().is_some()
    }
}

fn decode_part(headers: &[u8], data: &[u8]) -> (part: MmsPart)
    requires
        wsp::decodable(headers@.len()),
    ensures
        part@ == part_of(headers@, data@),
{
    reveal(part_of);
    let mut hr = Reader::new(headers);
    proof {
        wsp::law_reads_stay_inside(headers@);
    }
    let (content_type, params) = match hr.content_type() {
        Some((t, p)) => (t, p),
        None => {
            let none: Vec<(String, String)> = Vec::new();
            assert(text::pairs(none@) =~= Seq::<(Seq<char>, Seq<char>)>::empty());
            (text::owned("application/octet-stream"), none)
        },
    };
    assert(hr.rest() =~= headers@.skip(wsp::type_read(headers@).1 as int));
    let mut part = MmsPart {
        content_type,
        params,
        content_id: None,
        content_location: None,
        data: vstd::slice::slice_to_vec(data),
    };
    let ghost p0 = part@;
    let ghost s0 = hr.rest();
    while !hr.eof()
        invariant
            part_headers_read(s0, p0) == part_of(headers@, data@),
            part_headers_read(s0, p0) == part_headers_read(hr.rest(), part@),
        decreases hr.rest().len(),
    {
        let ghost s = hr.rest();
        let ghost p = part@;
        proof {
            lemma_part_header_bound(s, p);
        }
        let ok = decode_part_header(&mut hr, &mut part);
        assert(hr.rest() =~= s.skip(part_header_read(s, p).2 as int));
        if !ok {
            return part;
        }
    }
    part
}

fn decode_entry(r: &mut Reader<'_>) -> (res: Option<MmsPart>)
    requires
        wsp::decodable(old(r).rest().len()),
    ensures
        match res {
            Some(p) => entry_read(old(r).rest()) == Some((p@, entry_read(old(r).rest()).unwrap().1))
                && final(r).advanced(old(r), entry_read(old(r).rest()).unwrap().1) && entry_read(
                old(r).rest(),
            ).unwrap().1 <= old(r).rest().len(),
            None => entry_read(old(r).rest()).is_none(),
        },
{
    let ghost s = r.rest();
    proof {
        wsp::lemma_uintvar_bound(s, 8, 0);
    }
    let h = match r.uintvar() {
        Some(v) => if v <= usize::MAX as u64 {
            v as usize
        } else {
            return None;
        },
        None => {
            return None;
        },
    };
    let ghost n1 = wsp::uintvar_read(s).1;
    assert(r.rest() =~= s.skip(n1 as int));
    proof {
        wsp::lemma_uintvar_bound(r.rest(), 8, 0);
    }
    let d = match r.uintvar() {
        Some(v) => if v <= usize::MAX as u64 {
            v as usize
        } else {
            return None;
        },
        None => {
            return None;
        },
    };
    let ghost a = n1 + wsp::uintvar_read(s.skip(n1 as int)).1;
    assert(r.rest() =~= s.skip(a as int));
    match r.take(h) {
        None => None,
        Some(headers) => {
            assert(headers@ =~= s.subrange(a as int, (a + h) as int));
            match r.take(d) {
                None => None,
                Some(data) => {
                    assert(data@ =~= s.subrange((a + h) as int, (a + h + d) as int));
                    Some(decode_part(headers, data))
                },
            }
        },
    }
}

fn decode_multipart(body: &[u8]) -> (parts: Vec<MmsPart>)
    requires
        wsp::decodable(body@.len()),
    ensures
        part_views(parts@) == multipart_read(body@),
{
    let mut r = Reader::new(body);
    let mut parts: Vec<MmsPart> = Vec::new();
    assert(part_views(parts@) =~= Seq::<Part>::empty());
    proof {
        wsp::lemma_uintvar_bound(body@, 8, 0);
    }
    let count = match r.uintvar() {
        Some(c) => if c <= 256 {
            c
        } else {
            256
        },
        None => {
            return parts;
        },
    };
    let ghost s0 = body@.skip(wsp::uintvar_read(body@).1 as int);
    assert(r.rest() =~= s0);
    let mut k: u64 = 0;
    assert(part_views(parts@) + entries_read(s0, count as nat) =~= entries_read(s0, count as nat));
    while k < count
        invariant
            k <= count,
            wsp::decodable(r.rest().len()),
            entries_read(s0, count as nat) == multipart_read(body@),
            part_views(parts@) + entries_read(r.rest(), (count - k) as nat) == entries_read(
                s0,
                count as nat,
            ),
        decreases count - k,
    {
        let ghost s = r.rest();
        let ghost before = parts@;
        match decode_entry(&mut r) {
            None => {
                assert(part_views(parts@) + Seq::<Part>::empty() =~= part_views(parts@));
                return parts;
            },
            Some(p) => {
                let ghost n = entry_read(s).unwrap().1;
                assert(r.rest() =~= s.skip(n as int));
                parts.push(p);
                proof {
                    assert(part_views(parts@) =~= part_views(before).push(p@));
                    assert(part_views(before) + entries_read(s, (count - k) as nat) =~= part_views(
                        parts@,
                    ) + entries_read(r.rest(), (count - k - 1) as nat));
                }
            },
        }
        k += 1;
    }
    assert(part_views(parts@) + entries_read(r.rest(), 0) =~= part_views(parts@));
    parts
}

// ------------------------------------------------------------------ encoding, mathematically

/// A recipient the way MMSCs expect it: a bare number is marked as a telephone number.
pub open spec fn formatted(a: Seq<char>) -> Seq<char> {
    let t = text::trim(a);
    if t.contains('@') || text::find_text(t, "/TYPE="@) >= 0 {
        t
    } else {
        t + "/TYPE=PLMN"@
    }
}

pub open spec fn from_bytes(from: Option<Seq<char>>) -> Seq<u8> {
    match from {
        Some(a) => {
            let inner = seq![0x80u8] + wsp::encoded_bytes(formatted(a));
            wsp::length_bytes(inner.len()) + inner
        },
        None => wsp::length_bytes(1) + seq![0x81u8],
    }
}

pub open spec fn to_bytes(to: Seq<Seq<char>>) -> Seq<u8>
    decreases to.len(),
{
    if to.len() == 0 {
        seq![]
    } else {
        to_bytes(to.drop_last()) + (seq![field::TO] + wsp::encoded_bytes(formatted(to.last())))
    }
}

pub open spec fn subject_bytes(subject: Option<Seq<char>>) -> Seq<u8> {
    match subject {
        Some(s) => if s.len() > 0 {
            seq![field::SUBJECT] + wsp::encoded_bytes(s)
        } else {
            seq![]
        },
        None => seq![],
    }
}

pub open spec fn bracketed(id: Seq<char>) -> Seq<char> {
    seq!['<'] + id + seq!['>']
}

pub open spec fn start_piece(parts: Seq<Part>) -> Seq<u8> {
    match parts[0].content_id {
        Some(cid) => seq![0x99u8] + wsp::text_bytes(bracketed(cid)),
        None => seq![],
    }
}

/// The content type of the whole: related parts with the presentation first, or a single part.
pub open spec fn body_type_bytes(parts: Seq<Part>) -> Seq<u8> {
    if parts.len() > 1 {
        seq![0xb3u8, 0x89u8] + wsp::text_bytes("application/smil"@) + start_piece(parts)
    } else {
        seq![0xa3u8]
    }
}

/// A part's content type: well-known when possible.
pub open spec fn type_piece(p: Part) -> Seq<u8> {
    match wsp::type_code(p.content_type, 0) {
        Some(c) => seq![(128 + c) as u8],
        None => wsp::text_bytes(p.content_type),
    }
}

/// The charset of a text part.
pub open spec fn charset_piece(p: Part) -> Seq<u8> {
    if is_text_type(p.content_type) {
        seq![0x81u8] + wsp::integer_bytes(106)
    } else {
        seq![]
    }
}

pub open spec fn name_piece(p: Part) -> Seq<u8> {
    match part_name(p) {
        Some(n) => seq![0x97u8] + wsp::text_bytes(n),
        None => seq![],
    }
}

pub open spec fn part_type_bytes(p: Part) -> Seq<u8> {
    type_piece(p) + charset_piece(p) + name_piece(p)
}

pub open spec fn id_piece(p: Part) -> Seq<u8> {
    match p.content_id {
        Some(cid) => seq![0xc0u8] + wsp::text_bytes(bracketed(cid)),
        None => seq![],
    }
}

pub open spec fn location_piece(p: Part) -> Seq<u8> {
    match p.content_location {
        Some(l) => seq![0x8eu8] + wsp::text_bytes(l),
        None => seq![],
    }
}

pub open spec fn part_header_bytes(p: Part) -> Seq<u8> {
    wsp::length_bytes(part_type_bytes(p).len()) + part_type_bytes(p) + id_piece(p) + location_piece(
        p,
    )
}

pub open spec fn entry_bytes(p: Part) -> Seq<u8> {
    wsp::uintvar_bytes(part_header_bytes(p).len()) + wsp::uintvar_bytes(p.data.len())
        + part_header_bytes(p) + p.data
}

pub open spec fn entries_bytes(parts: Seq<Part>) -> Seq<u8>
    decreases parts.len(),
{
    if parts.len() == 0 {
        seq![]
    } else {
        entries_bytes(parts.drop_last()) + entry_bytes(parts.last())
    }
}

pub open spec fn report_byte(wanted: bool) -> u8 {
    if wanted {
        0x80
    } else {
        0x81
    }
}

/// The type, transaction and version every message starts with.
pub open spec fn preamble_bytes(message_type: u8, transaction_id: Seq<char>) -> Seq<u8> {
    seq![field::MESSAGE_TYPE, message_type, field::TRANSACTION_ID] + wsp::text_bytes(transaction_id)
        + seq![field::MMS_VERSION, VERSION_1_2]
}

/// The headers of M-Send.req before its content type.
pub open spec fn send_header_bytes(
    transaction_id: Seq<char>,
    from: Option<Seq<char>>,
    to: Seq<Seq<char>>,
    subject: Option<Seq<char>>,
    delivery_report: bool,
    read_report: bool,
) -> Seq<u8> {
    preamble_bytes(msg_type::SEND_REQ, transaction_id) + seq![field::FROM] + from_bytes(from)
        + to_bytes(to) + subject_bytes(subject) + seq![
        field::MESSAGE_CLASS,
        0x80u8,
        field::DELIVERY_REPORT,
        report_byte(delivery_report),
        field::READ_REPORT,
        report_byte(read_report),
    ]
}

/// The content type of M-Send.req and what follows it.
pub open spec fn send_body_bytes(parts: Seq<Part>) -> Seq<u8> {
    seq![field::CONTENT_TYPE] + wsp::length_bytes(body_type_bytes(parts).len()) + body_type_bytes(
        parts,
    ) + wsp::uintvar_bytes(parts.len()) + entries_bytes(parts)
}

// ------------------------------------------------------------------ encoding

/// Format a recipient the way MMSCs expect.
pub fn format_address(addr: &str) -> (r: String)
    ensures
        r@ == formatted(addr@),
{
    let c = text::chars_of(addr);
    let t = text::trimmed(c.as_slice());
    let mut out = text::string_of(t);
    if !(text::contains_char(t, '@') || text::contains_text(t, "/TYPE=")) {
        out.append("/TYPE=PLMN");
    }
    out
}

pub struct SendReq<'a> {
    pub transaction_id: &'a str,
    pub from: Option<&'a str>,
    pub to: &'a [String],
    pub subject: Option<&'a str>,
    pub parts: &'a [MmsPart],
    pub delivery_report: bool,
    pub read_report: bool,
}

impl<'a> SendReq<'a> {
    /// The bytes of the request.
    pub open spec fn bytes(&self) -> Seq<u8> {
        send_header_bytes(
            self.transaction_id@,
            text::opt_str(self.from),
            text::texts(self.to@),
            text::opt_str(self.subject),
            self.delivery_report,
            self.read_report,
        ) + send_body_bytes(part_views(self.parts@))
    }
}

fn report(wanted: bool) -> (r: u8)
    ensures
        r == report_byte(wanted),
{
    if wanted {
        0x80
    } else {
        0x81
    }
}

fn in_brackets(id: &str) -> (r: String)
    ensures
        r@ == bracketed(id@),
{
    let mut s = String::new();
    s.push('<');
    s.append(id);
    s.push('>');
    assert(s@ =~= bracketed(id@));
    s
}

fn write_preamble(out: &mut Vec<u8>, message_type: u8, transaction_id: &str)
    ensures
        final(out)@ == old(out)@ + preamble_bytes(message_type, transaction_id@),
{
    out.push(field::MESSAGE_TYPE);
    out.push(message_type);
    out.push(field::TRANSACTION_ID);
    wsp::write_text_string(out, transaction_id);
    out.push(field::MMS_VERSION);
    out.push(VERSION_1_2);
    assert(out@ =~= old(out)@ + preamble_bytes(message_type, transaction_id@));
}

fn write_from(out: &mut Vec<u8>, from: Option<&str>)
    ensures
        final(out)@ == old(out)@ + from_bytes(text::opt_str(from)),
{
    match from {
        Some(addr) => {
            let mut inner: Vec<u8> = Vec::new();
            inner.push(0x80);
            let formatted = format_address(addr);
            wsp::write_encoded_string(&mut inner, formatted.as_str());
            assert(inner@ =~= seq![0x80u8] + wsp::encoded_bytes(formatted@));
            wsp::write_value_length(out, inner.len());
            text::append_bytes(out, inner.as_slice());
        },
        None => {
            // insert-address-token: the MMSC fills in our own number.
            wsp::write_value_length(out, 1);
            out.push(0x81);
        },
    }
    assert(out@ =~= old(out)@ + from_bytes(text::opt_str(from)));
}

fn write_recipients(out: &mut Vec<u8>, to: &[String])
    ensures
        final(out)@ == old(out)@ + to_bytes(text::texts(to@)),
{
    let ghost all = text::texts(to@);
    let mut i: usize = 0;
    assert(out@ =~= old(out)@ + to_bytes(all.take(0)));
    while i < to.len()
        invariant
            i <= to@.len(),
            all == text::texts(to@),
            out@ == old(out)@ + to_bytes(all.take(i as int)),
        decreases to@.len() - i,
    {
        let ghost before = out@;
        out.push(field::TO);
        let formatted = format_address(to[i].as_str());
        wsp::write_encoded_string(out, formatted.as_str());
        i += 1;
        proof {
            assert(all.take(i as int).drop_last() =~= all.take(i - 1));
            assert(all.take(i as int).last() == to@[i - 1]@);
            assert(out@ =~= old(out)@ + to_bytes(all.take(i as int)));
        }
    }
    assert(all.take(i as int) =~= all);
}

fn write_subject(out: &mut Vec<u8>, subject: Option<&str>)
    ensures
        final(out)@ == old(out)@ + subject_bytes(text::opt_str(subject)),
{
    if let Some(s) = subject {
        if !s.is_empty() {
            out.push(field::SUBJECT);
            wsp::write_encoded_string(out, s);
        }
    }
    assert(out@ =~= old(out)@ + subject_bytes(text::opt_str(subject)));
}

/// A byte and a text.
fn write_tagged_text(out: &mut Vec<u8>, tag: u8, t: &str)
    ensures
        final(out)@ == old(out)@ + (seq![tag] + wsp::text_bytes(t@)),
{
    out.push(tag);
    wsp::write_text_string(out, t);
    assert(out@ =~= old(out)@ + (seq![tag] + wsp::text_bytes(t@)));
}

fn write_reports(out: &mut Vec<u8>, delivery: bool, read: bool)
    ensures
        final(out)@ == old(out)@ + seq![
            field::MESSAGE_CLASS,
            0x80u8,
            field::DELIVERY_REPORT,
            report_byte(delivery),
            field::READ_REPORT,
            report_byte(read),
        ],
{
    out.push(field::MESSAGE_CLASS);
    out.push(0x80);
    out.push(field::DELIVERY_REPORT);
    out.push(report(delivery));
    out.push(field::READ_REPORT);
    out.push(report(read));
    assert(out@ =~= old(out)@ + seq![
        field::MESSAGE_CLASS,
        0x80u8,
        field::DELIVERY_REPORT,
        report_byte(delivery),
        field::READ_REPORT,
        report_byte(read),
    ]);
}

fn body_type(parts: &[MmsPart]) -> (ct: Vec<u8>)
    ensures
        ct@ == body_type_bytes(part_views(parts@)),
{
    let mut ct: Vec<u8> = Vec::new();
    if parts.len() > 1 {
        // Related parts with a SMIL presentation are what every handset expects for a picture and
        // text.
        ct.push(0xb3);
        ct.push(0x89);
        assert(ct@ =~= seq![0xb3u8, 0x89u8]);
        wsp::write_text_string(&mut ct, "application/smil");
        if let Some(cid) = &parts[0].content_id {
            write_tagged_text(&mut ct, 0x99, in_brackets(cid.as_str()).as_str());
        } else {
            assert(ct@ + Seq::<u8>::empty() =~= ct@);
        }
    } else {
        ct.push(0xa3);
        assert(ct@ =~= seq![0xa3u8]);
    }
    ct
}

/// Build an M-Send.req PDU ready to be POSTed to the MMSC.
pub fn encode_send_req(req: &SendReq<'_>) -> (out: Vec<u8>)
    ensures
        out@ == req.bytes(),
{
    let mut out: Vec<u8> = Vec::new();
    write_preamble(&mut out, msg_type::SEND_REQ, req.transaction_id);
    proof {
        let p = preamble_bytes(msg_type::SEND_REQ, req.transaction_id@);
        assert(Seq::<u8>::empty() + p =~= p);
    }
    push_byte(&mut out, field::FROM);
    write_from(&mut out, req.from);
    write_recipients(&mut out, req.to);
    write_subject(&mut out, req.subject);
    write_reports(&mut out, req.delivery_report, req.read_report);
    // Content-Type must be the last header.
    let mut body: Vec<u8> = Vec::new();
    push_byte(&mut body, field::CONTENT_TYPE);
    assert(body@ =~= seq![field::CONTENT_TYPE]);
    let ct = body_type(req.parts);
    wsp::write_value_length(&mut body, ct.len());
    text::append_bytes(&mut body, ct.as_slice());
    encode_multipart(&mut body, req.parts);
    text::append_bytes(&mut out, body.as_slice());
    out
}

fn push_byte(out: &mut Vec<u8>, b: u8)
    ensures
        final(out)@ == old(out)@ + seq![b],
{
    out.push(b);
    assert(out@ =~= old(out)@ + seq![b]);
}

fn part_type(part: &MmsPart) -> (ct: Vec<u8>)
    ensures
        ct@ == part_type_bytes(part@),
{
    let mut ct: Vec<u8> = Vec::new();
    match wsp::content_type_code(part.content_type.as_str()) {
        Some(code) => {
            proof {
                wsp::law_type_code_names_the_type(part.content_type@, 0);
            }
            ct.push(0x80 + code);
        },
        None => wsp::write_text_string(&mut ct, part.content_type.as_str()),
    }
    assert(ct@ =~= type_piece(part@));
    let ghost c1 = ct@;
    if part.is_text() {
        ct.push(0x81);
        wsp::write_integer_value(&mut ct, wsp::CHARSET_UTF8);
    }
    assert(ct@ =~= c1 + charset_piece(part@));
    if let Some(name) = part.name() {
        write_tagged_text(&mut ct, 0x97, name.as_str());
    } else {
        assert(ct@ + Seq::<u8>::empty() =~= ct@);
    }
    ct
}

fn write_part_headers(part: &MmsPart) -> (headers: Vec<u8>)
    ensures
        headers@ == part_header_bytes(part@),
{
    let ct = part_type(part);
    let mut headers: Vec<u8> = Vec::new();
    wsp::write_value_length(&mut headers, ct.len());
    assert(headers@ =~= wsp::length_bytes(part_type_bytes(part@).len()));
    text::append_bytes(&mut headers, ct.as_slice());
    if let Some(cid) = &part.content_id {
        write_tagged_text(&mut headers, 0xc0, in_brackets(cid.as_str()).as_str());
    } else {
        assert(headers@ + Seq::<u8>::empty() =~= headers@);
    }
    if let Some(loc) = &part.content_location {
        write_tagged_text(&mut headers, 0x8e, loc.as_str());
    } else {
        assert(headers@ + Seq::<u8>::empty() =~= headers@);
    }
    headers
}

fn encode_multipart(out: &mut Vec<u8>, parts: &[MmsPart])
    ensures
        final(out)@ == old(out)@ + wsp::uintvar_bytes(parts@.len()) + entries_bytes(
            part_views(parts@),
        ),
{
    wsp::write_uintvar(out, parts.len() as u64);
    let ghost all = part_views(parts@);
    let ghost o1 = out@;
    let mut i: usize = 0;
    assert(out@ =~= o1 + entries_bytes(all.take(0)));
    while i < parts.len()
        invariant
            i <= parts@.len(),
            all == part_views(parts@),
            out@ == o1 + entries_bytes(all.take(i as int)),
        decreases parts@.len() - i,
    {
        let ghost before = out@;
        let part = &parts[i];
        let headers = write_part_headers(part);
        wsp::write_uintvar(out, headers.len() as u64);
        wsp::write_uintvar(out, part.data.len() as u64);
        text::append_bytes(out, headers.as_slice());
        text::append_bytes(out, part.data.as_slice());
        i += 1;
        proof {
            assert(all.take(i as int).drop_last() =~= all.take(i - 1));
            assert(all.take(i as int).last() == part@);
            assert(out@ =~= before + entry_bytes(part@));
            assert(out@ =~= o1 + entries_bytes(all.take(i as int)));
        }
    }
    assert(all.take(i as int) =~= all);
}

/// The bytes of M-NotifyResp.ind.
pub open spec fn notify_resp_bytes(
    transaction_id: Seq<char>,
    status: u8,
    report_allowed: bool,
) -> Seq<u8> {
    preamble_bytes(msg_type::NOTIFYRESP_IND, transaction_id) + seq![
        field::STATUS,
        status,
        field::REPORT_ALLOWED,
        report_byte(report_allowed),
    ]
}

/// M-NotifyResp.ind: tell the MMSC what happened to a notification. status: 0x80 expired, 0x81
/// retrieved, 0x82 rejected, 0x83 deferred, 0x84 unrecognised.
pub fn encode_notify_resp_ind(transaction_id: &str, status: u8, report_allowed: bool) -> (out: Vec<
    u8,
>)
    ensures
        out@ == notify_resp_bytes(transaction_id@, status, report_allowed),
{
    let mut out: Vec<u8> = Vec::new();
    write_preamble(&mut out, msg_type::NOTIFYRESP_IND, transaction_id);
    out.push(field::STATUS);
    out.push(status);
    out.push(field::REPORT_ALLOWED);
    out.push(report(report_allowed));
    assert(out@ =~= notify_resp_bytes(transaction_id@, status, report_allowed));
    out
}

/// The bytes of M-Acknowledge.ind.
pub open spec fn acknowledge_bytes(transaction_id: Seq<char>, report_allowed: bool) -> Seq<u8> {
    preamble_bytes(msg_type::ACKNOWLEDGE_IND, transaction_id) + seq![
        field::REPORT_ALLOWED,
        report_byte(report_allowed),
    ]
}

/// M-Acknowledge.ind, sent after a successful retrieval.
pub fn encode_acknowledge_ind(transaction_id: &str, report_allowed: bool) -> (out: Vec<u8>)
    ensures
        out@ == acknowledge_bytes(transaction_id@, report_allowed),
{
    let mut out: Vec<u8> = Vec::new();
    write_preamble(&mut out, msg_type::ACKNOWLEDGE_IND, transaction_id);
    out.push(field::REPORT_ALLOWED);
    out.push(report(report_allowed));
    assert(out@ =~= acknowledge_bytes(transaction_id@, report_allowed));
    out
}

/// The element that shows a part, if it has an id and a kind that is shown.
pub open spec fn smil_element(p: Part) -> Seq<char> {
    match p.content_id {
        None => seq![],
        Some(cid) => if text::has_prefix(p.content_type, "image/"@) {
            "      <img src=\"cid:"@ + cid + "\" region=\"Image\"/>\n"@
        } else if text::has_prefix(p.content_type, "text/"@) {
            "      <text src=\"cid:"@ + cid + "\" region=\"Text\"/>\n"@
        } else if text::has_prefix(p.content_type, "audio/"@) || text::has_prefix(
            p.content_type,
            "video/"@,
        ) {
            "      <video src=\"cid:"@ + cid + "\" region=\"Image\"/>\n"@
        } else {
            seq![]
        },
    }
}

pub open spec fn smil_elements(parts: Seq<Part>) -> Seq<char>
    decreases parts.len(),
{
    if parts.len() == 0 {
        seq![]
    } else {
        smil_elements(parts.drop_last()) + smil_element(parts.last())
    }
}

pub open spec fn smil_text(parts: Seq<Part>) -> Seq<char> {
    "<smil>\n  <head>\n    <layout>\n      <root-layout width=\"320px\" height=\"480px\"/>\n"@
        + "      <region id=\"Image\" top=\"0%\" left=\"0%\" height=\"80%\" width=\"100%\" fit=\"meet\"/>\n"@
        + "      <region id=\"Text\" top=\"80%\" left=\"0%\" height=\"20%\" width=\"100%\" fit=\"scroll\"/>\n"@
        + "    </layout>\n  </head>\n  <body>\n    <par dur=\"8000ms\">\n"@ + smil_elements(parts)
        + "    </par>\n  </body>\n</smil>\n"@
}

fn push_smil_element(out: &mut String, part: &MmsPart)
    ensures
        final(out)@ == old(out)@ + smil_element(part@),
{
    if let Some(cid) = &part.content_id {
        let c = text::chars_of(part.content_type.as_str());
        if text::starts_with(c.as_slice(), "image/") {
            out.append("      <img src=\"cid:");
            out.append(cid.as_str());
            out.append("\" region=\"Image\"/>\n");
        } else if text::starts_with(c.as_slice(), "text/") {
            out.append("      <text src=\"cid:");
            out.append(cid.as_str());
            out.append("\" region=\"Text\"/>\n");
        } else if text::starts_with(c.as_slice(), "audio/") || text::starts_with(
            c.as_slice(),
            "video/",
        ) {
            out.append("      <video src=\"cid:");
            out.append(cid.as_str());
            out.append("\" region=\"Image\"/>\n");
        }
    }
    assert(out@ =~= old(out)@ + smil_element(part@));
}

/// Minimal SMIL presentation so handsets render text and image sensibly.
pub fn build_smil(parts: &[MmsPart]) -> (r: String)
    ensures
        r@ == smil_text(part_views(parts@)),
{
    let ghost all = part_views(parts@);
    let mut out = text::owned(
        "<smil>\n  <head>\n    <layout>\n      <root-layout width=\"320px\" height=\"480px\"/>\n",
    );
    out.append(
        "      <region id=\"Image\" top=\"0%\" left=\"0%\" height=\"80%\" width=\"100%\" fit=\"meet\"/>\n",
    );
    out.append(
        "      <region id=\"Text\" top=\"80%\" left=\"0%\" height=\"20%\" width=\"100%\" fit=\"scroll\"/>\n",
    );
    out.append("    </layout>\n  </head>\n  <body>\n    <par dur=\"8000ms\">\n");
    let ghost head = out@;
    let mut i: usize = 0;
    assert(out@ =~= head + smil_elements(all.take(0)));
    while i < parts.len()
        invariant
            i <= parts@.len(),
            all == part_views(parts@),
            out@ == head + smil_elements(all.take(i as int)),
        decreases parts@.len() - i,
    {
        push_smil_element(&mut out, &parts[i]);
        i += 1;
        proof {
            assert(all.take(i as int).drop_last() =~= all.take(i - 1));
            assert(all.take(i as int).last() == parts@[i - 1]@);
            assert(out@ =~= head + smil_elements(all.take(i as int)));
        }
    }
    assert(all.take(i as int) =~= all);
    out.append("    </par>\n  </body>\n</smil>\n");
    out
}

} // verus!
