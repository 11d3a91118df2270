//! Small local control API.
//!
//! It exists for two reasons: MMS submission needs a way to hand over binary attachments (which SIP
//! MESSAGE is a poor fit for), and the simplified MMS notifications sent over SIP need somewhere to
//! point at for downloads.
use vstd::prelude::*;
use vstd::utf8::*;

use crate::http_head;
use crate::sip::auth;
use crate::text;

verus! {

/// The largest body that is read, in bytes.
pub const MAX_BODY: usize = 33_554_432;

/// Floor for the whole-request deadline, in seconds; MMS endpoints push it out further.
pub const MIN_REQUEST_TIMEOUT: u64 = 30;

// ------------------------------------------------------------------ requests

#[derive(Debug)]
pub struct HttpRequest {
    pub method: String,
    pub path: String,
    pub query: String,
    pub headers: Vec<(String, String)>,
    pub body: Vec<u8>,
}

/// A request, mathematically.
#[verifier::ext_equal]
pub struct Wish {
    pub method: Seq<char>,
    pub path: Seq<char>,
    pub query: Seq<char>,
    pub headers: Seq<(Seq<char>, Seq<char>)>,
    pub body: Seq<u8>,
}

impl View for HttpRequest {
    type V = Wish;

    open spec fn view(&self) -> Wish {
        Wish {
            method: self.method@,
            path: self.path@,
            query: self.query@,
            headers: text::pairs(self.headers@),
            body: self.body@,
        }
    }
}

/// Why a request is not read.
#[derive(Debug, Clone, Copy, PartialEq, Eq, Structural)]
pub enum RequestError {
    HeadTooLarge,
    BodyTooLarge,
}

impl RequestError {
    pub fn message(&self) -> (r: &'static str)
        ensures
            r@ == match *self {
                RequestError::HeadTooLarge => "request headers too large"@,
                RequestError::BodyTooLarge => "request body too large"@,
            },
    {
        match self {
            RequestError::HeadTooLarge => "request headers too large",
            RequestError::BodyTooLarge => "request body too large",
        }
    }
}

/// The word at a place, or another text where there are not so many.
pub open spec fn word_or(s: Seq<char>, i: int, otherwise: Seq<char>) -> Seq<char> {
    let w = text::words(s);
    if i < w.len() {
        w[i]
    } else {
        otherwise
    }
}

/// The request of a head, without its body.
pub open spec fn head_of(head: Seq<char>) -> Wish {
    let lines = http_head::head_lines(head);
    let target = word_or(lines[0], 1, "/"@);
    let (path, query) = match text::split_once(target, '?') {
        Some((p, q)) => (p, q),
        None => (target, Seq::empty()),
    };
    Wish {
        method: word_or(lines[0], 0, "GET"@),
        path,
        query,
        headers: http_head::fields_of(lines.skip(1)),
        body: seq![],
    }
}

pub open spec fn body_length(w: Wish) -> nat {
    match http_head::declared_length(w.headers) {
        Some(n) => n,
        None => 0,
    }
}

fn nth_word(s: &[char], i: usize, otherwise: &str) -> (r: String)
    ensures
        r@ == word_or(s@, i as int, otherwise@),
{
    let w = text::words_of(s);
    if i < w.len() {
        assert(text::slices(w@)[i as int] == w@[i as int]@);
        text::string_of(w[i])
    } else {
        text::owned(otherwise)
    }
}

fn read_head(head: &str) -> (r: HttpRequest)
    ensures
        r@ == head_of(head@),
{
    let c = text::chars_of(head);
    let lines = http_head::lines_of_head(c.as_slice());
    assert(text::slices(lines@)[0] == lines@[0]@);
    let method = nth_word(lines[0], 0, "GET");
    let target = nth_word(lines[0], 1, "/");
    let t = text::chars_of(target.as_str());
    let (path, query) = match text::cut(t.as_slice(), '?') {
        Some((p, q)) => (text::string_of(p), text::string_of(q)),
        None => (target, String::new()),
    };
    let headers = http_head::read_fields(&lines, 1);
    let r = HttpRequest { method, path, query, headers, body: Vec::new() };
    assert(r@ =~= head_of(head@));
    r
}

/// A request as it arrives.
#[derive(Debug)]
pub enum RequestReader {
    /// What was read of the head.
    Head(Vec<u8>),
    /// The head is complete; what was read of the body, and its length.
    Body { req: HttpRequest, length: usize },
}

/// A request as it arrives, mathematically.
pub enum Reading {
    Head(Seq<u8>),
    Body { req: Wish, length: nat },
}

impl View for RequestReader {
    type V = Reading;

    open spec fn view(&self) -> Reading {
        match *self {
            RequestReader::Head(b) => Reading::Head(b@),
            RequestReader::Body { req, length } => Reading::Body { req: req@, length: length as nat },
        }
    }
}

/// The reading once more bytes came.
pub open spec fn read_more(r: Reading, chunk: Seq<u8>) -> Result<Reading, RequestError> {
    match r {
        Reading::Head(b) => {
            let all = b + chunk;
            let end = http_head::head_end(all);
            if all.len() > http_head::MAX_HEAD {
                Err(RequestError::HeadTooLarge)
            } else if end < 0 {
                Ok(Reading::Head(all))
            } else {
                let w = head_of(text::lossy(all.take(end)));
                if body_length(w) > MAX_BODY {
                    Err(RequestError::BodyTooLarge)
                } else {
                    Ok(
                        Reading::Body {
                            req: Wish { body: all.skip(end + 4), ..w },
                            length: body_length(w),
                        },
                    )
                }
            }
        },
        Reading::Body { req, length } => Ok(
            Reading::Body { req: Wish { body: req.body + chunk, ..req }, length },
        ),
    }
}

/// A reading that has all it needs.
pub open spec fn is_complete(r: Reading) -> bool {
    match r {
        Reading::Head(_) => false,
        Reading::Body { req, length } => req.body.len() >= length,
    }
}

/// The request of a reading: what was read of the body, cut to its length; none without a head.
pub open spec fn request_of(r: Reading) -> Option<Wish> {
    match r {
        Reading::Head(_) => None,
        Reading::Body { req, length } => Some(
            Wish {
                body: if length < req.body.len() {
                    req.body.take(length as int)
                } else {
                    req.body
                },
                ..req
            },
        ),
    }
}

impl RequestReader {
    pub fn new() -> (r: Self)
        ensures
            r@ == Reading::Head(seq![]),
    {
        let b: Vec<u8> = Vec::new();
        assert(b@ =~= seq![]);
        RequestReader::Head(b)
    }

    /// Take more bytes.
    pub fn push(self, chunk: &[u8]) -> (r: Result<Self, RequestError>)
        ensures
            match r {
                Ok(next) => read_more(self@, chunk@) == Ok::<Reading, RequestError>(next@),
                Err(e) => read_more(self@, chunk@) == Err::<Reading, RequestError>(e),
            },
    {
        match self {
            RequestReader::Head(b) => {
                let mut all = b;
                text::append_bytes(&mut all, chunk);
                if all.len() > http_head::MAX_HEAD {
                    return Err(RequestError::HeadTooLarge);
                }
                match http_head::find_head_end(all.as_slice()) {
                    None => Ok(RequestReader::Head(all)),
                    Some(end) => {
                        let s = all.as_slice();
                        let head = text::lossy_text(vstd::slice::slice_subrange(s, 0, end));
                        assert(s@.subrange(0, end as int) =~= all@.take(end as int));
                        let mut req = read_head(head.as_str());
                        let length = match http_head::content_length(&req.headers) {
                            Some(n) => n,
                            None => 0,
                        };
                        if length > MAX_BODY {
                            return Err(RequestError::BodyTooLarge);
                        }
                        req.body = vstd::slice::slice_to_vec(
                            vstd::slice::slice_subrange(s, end + 4, s.len()),
                        );
                        assert(req.body@ =~= all@.skip(end + 4));
                        Ok(RequestReader::Body { req, length })
                    },
                }
            },
            RequestReader::Body { req, length } => {
                let mut req = req;
                text::append_bytes(&mut req.body, chunk);
                Ok(RequestReader::Body { req, length })
            },
        }
    }

    pub fn complete(&self) -> (r: bool)
        ensures
            r == is_complete(self@),
    {
        match self {
            RequestReader::Head(_) => false,
            RequestReader::Body { req, length } => req.body.len() >= *length,
        }
    }

    /// The request, once nothing more is read.
    pub fn finish(self) -> (r: Option<HttpRequest>)
        ensures
            match r {
                Some(q) => request_of(self@) == Some(q@),
                None => request_of(self@).is_none(),
            },
    {
        match self {
            RequestReader::Head(_) => None,
            RequestReader::Body { req, length } => {
                let mut req = req;
                if length < req.body.len() {
                    req.body = vstd::slice::slice_to_vec(
                        vstd::slice::slice_subrange(req.body.as_slice(), 0, length),
                    );
                }
                Some(req)
            },
        }
    }
}

/// No request is read that is larger than its limits, and a body has at most its declared length.
pub proof fn law_requests_are_bounded(r: Reading, chunk: Seq<u8>)
    requires
        r matches Reading::Body { length, .. } ==> length <= MAX_BODY,
        read_more(r, chunk) is Ok,
    ensures
        match read_more(r, chunk).unwrap() {
            Reading::Head(b) => b.len() <= http_head::MAX_HEAD,
            Reading::Body { req, length } => length <= MAX_BODY && request_of(
                read_more(r, chunk).unwrap(),
            ).unwrap().body.len() <= length,
        },
{
}

/// However a request is cut into pieces on its way, it is read the same: two pieces one after the
/// other make what they make together.
pub proof fn law_pieces_of_a_request_add_up(r: Reading, a: Seq<u8>, b: Seq<u8>)
    requires
        r matches Reading::Head(h) ==> h.len() + a.len() + b.len() <= http_head::MAX_HEAD,
    ensures
        match read_more(r, a) {
            Ok(next) => read_more(next, b) == read_more(r, a + b),
            Err(e) => read_more(r, a + b) == Err::<Reading, RequestError>(e),
        },
{
    match r {
        Reading::Head(h) => {
            let first = h + a;
            assert(h + (a + b) =~= first + b);
            if http_head::head_end(first) >= 0 {
                http_head::lemma_head_stays(first, b);
            }
        },
        Reading::Body { req, length } => {
            assert(req.body + a + b =~= req.body + (a + b));
        },
    }
}

// ------------------------------------------------------------------ queries

pub open spec fn hex_of_byte(b: u8) -> Option<nat> {
    text::hex_digit_value(b as char)
}

/// Bytes with every `%` that is followed by two hexadecimal digits decoded.
pub open spec fn percent_bytes(b: Seq<u8>) -> Seq<u8>
    decreases b.len(),
{
    if b.len() == 0 {
        seq![]
    } else if b[0] == 0x25 && b.len() >= 3 && hex_of_byte(b[1]).is_some() && hex_of_byte(
        b[2],
    ).is_some() {
        seq![(hex_of_byte(b[1]).unwrap() * 16 + hex_of_byte(b[2]).unwrap()) as u8] + percent_bytes(
            b.skip(3),
        )
    } else {
        seq![b[0]] + percent_bytes(b.skip(1))
    }
}

/// `percent_encoding`'s `percent_decode_str(s)` collected: the UTF-8 bytes of the text, with every
/// `%` that is followed by two hexadecimal digits replaced by the byte they give.
#[verifier::external_body]
fn percent_decode_bytes(s: &str) -> (r: Vec<u8>)
    ensures
        r@ == percent_bytes(encode_utf8(s@)),
{
    percent_encoding::percent_decode_str(s).collect()
}

/// A percent-encoded text, decoded and read as UTF-8.
pub open spec fn percent_text(s: Seq<char>) -> Seq<char> {
    text::lossy(percent_bytes(encode_utf8(s)))
}

pub fn percent_decode(s: &str) -> (r: String)
    ensures
        r@ == percent_text(s@),
{
    text::lossy_text(percent_decode_bytes(s).as_slice())
}

/// The value of a query parameter: of the first that has the name.
pub open spec fn query_value(parts: Seq<Seq<char>>, name: Seq<char>) -> Option<Seq<char>>
    decreases parts.len(),
{
    if parts.len() == 0 {
        None
    } else {
        match text::split_once(parts[0], '=') {
            Some((k, v)) => if k == name {
                Some(percent_text(v))
            } else {
                query_value(parts.skip(1), name)
            },
            None => query_value(parts.skip(1), name),
        }
    }
}

impl HttpRequest {
    pub fn header(&self, name: &str) -> (r: Option<&str>)
        ensures
            text::opt_str(r) == http_head::field_value(self@.headers, name@),
    {
        http_head::find_field(&self.headers, name)
    }

    pub fn query_param(&self, name: &str) -> (r: Option<String>)
        ensures
            text::opt_text(r) == query_value(text::split(self@.query, '&'), name@),
    {
        let c = text::chars_of(self.query.as_str());
        let parts = text::split_at_char(c.as_slice(), '&');
        let ghost all = text::slices(parts@);
        let mut i: usize = 0;
        assert(all.skip(0) =~= all);
        while i < parts.len()
            invariant
                i <= parts@.len(),
                all == text::slices(parts@),
                all == text::split(self@.query, '&'),
                query_value(all.skip(i as int), name@) == query_value(all, name@),
            decreases parts@.len() - i,
        {
            assert(all.skip(i as int)[0] == parts@[i as int]@);
            assert(all.skip(i as int).skip(1) =~= all.skip(i + 1));
            if let Some((k, v)) = text::cut(parts[i], '=') {
                if text::is(k, name) {
                    return Some(percent_decode(text::string_of(v).as_str()));
                }
            }
            i += 1;
        }
        None
    }
}

/// How many messages to list, and before which: fifty unless asked otherwise, at least one and at
/// most five hundred.
pub open spec fn list_limit(w: Wish) -> int {
    let asked = match query_value(text::split(w.query, '&'), "limit"@) {
        Some(v) => match text::signed_number(v) {
            Some(n) => n,
            None => 50,
        },
        None => 50,
    };
    if asked < 1 {
        1
    } else if asked > 500 {
        500
    } else {
        asked
    }
}

pub open spec fn list_before(w: Wish) -> Option<int> {
    match query_value(text::split(w.query, '&'), "before"@) {
        Some(v) => text::signed_number(v),
        None => None,
    }
}

pub open spec fn opt_int(v: Option<i64>) -> Option<int> {
    match v {
        Some(n) => Some(n as int),
        None => None,
    }
}

fn number_param(req: &HttpRequest, name: &str) -> (r: Option<i64>)
    ensures
        opt_int(r) == match query_value(text::split(req@.query, '&'), name@) {
            Some(v) => text::signed_number(v),
            None => None,
        },
{
    match req.query_param(name) {
        Some(v) => {
            let c = text::chars_of(v.as_str());
            text::parse_i64(c.as_slice())
        },
        None => None,
    }
}

/// What a request for a list of messages asks for.
pub fn list_params(req: &HttpRequest) -> (r: (i64, Option<i64>))
    ensures
        r.0 == list_limit(req@),
        opt_int(r.1) == list_before(req@),
{
    let asked = match number_param(req, "limit") {
        Some(n) => n,
        None => 50,
    };
    let limit = if asked < 1 {
        1
    } else if asked > 500 {
        500
    } else {
        asked
    };
    (limit, number_param(req, "before"))
}

// ------------------------------------------------------------------ access

/// The token that a request shows.
pub open spec fn shown_token(w: Wish) -> Seq<char> {
    match http_head::field_value(w.headers, "authorization"@) {
        Some(v) => match text::after_prefix(text::trim(v), "Bearer "@) {
            Some(t) => text::trim(t),
            None => seq![],
        },
        None => seq![],
    }
}

/// Whether a request may proceed: it shows the token, where one is configured.
pub fn authorized(req: &HttpRequest, token: Option<&str>) -> (r: bool)
    ensures
        r == match token {
            Some(t) => shown_token(req@) == t@,
            None => true,
        },
{
    match token {
        Some(t) => {
            let shown = match req.header("authorization") {
                Some(v) => {
                    let c = text::chars_of(v);
                    match text::strip_prefix(text::trimmed(c.as_slice()), "Bearer ") {
                        Some(s) => text::string_of(text::trimmed(s)),
                        None => String::new(),
                    }
                },
                None => String::new(),
            };
            auth::constant_time_eq(shown.as_str(), t)
        },
        None => true,
    }
}

// ------------------------------------------------------------------ endpoints

/// What a request is for.
#[derive(Debug, Clone, Copy, PartialEq, Eq, Structural)]
pub enum Endpoint {
    Health,
    Cards,
    Messages,
    Message(i64),
    Attachment { message: i64, index: i64 },
    SendSms,
    /// Retry a notification that was never downloaded (MMS disabled at the time, bearer down, MMSC
    /// error).
    Retrieve(i64),
    SendMms,
    BadId,
    NoSuchEndpoint,
}

/// The segments of a path, leaving slashes at its ends aside.
pub open spec fn segments(path: Seq<char>) -> Seq<Seq<char>> {
    text::split(text::strip_end(text::strip_start(path, '/'), '/'), '/')
}

pub open spec fn id_endpoint(s: Seq<char>, retrieve: bool) -> Endpoint {
    match text::signed_number(s) {
        Some(n) => if retrieve {
            Endpoint::Retrieve(n as i64)
        } else {
            Endpoint::Message(n as i64)
        },
        None => Endpoint::BadId,
    }
}

/// The endpoint of a method and a path.
pub open spec fn endpoint_of(method: Seq<char>, path: Seq<char>) -> Endpoint {
    let s = segments(path);
    if method == "GET"@ {
        if s.len() == 1 && (s[0].len() == 0 || s[0] == "health"@) {
            Endpoint::Health
        } else if s.len() == 1 && s[0] == "cards"@ {
            Endpoint::Cards
        } else if s.len() == 1 && s[0] == "messages"@ {
            Endpoint::Messages
        } else if s.len() == 2 && s[0] == "messages"@ {
            id_endpoint(s[1], false)
        } else if s.len() == 4 && s[0] == "messages"@ && s[2] == "attachments"@ {
            match (text::signed_number(s[1]), text::signed_number(s[3])) {
                (Some(m), Some(i)) => Endpoint::Attachment { message: m as i64, index: i as i64 },
                _ => Endpoint::BadId,
            }
        } else {
            Endpoint::NoSuchEndpoint
        }
    } else if method == "POST"@ {
        if s.len() == 1 && s[0] == "sms"@ {
            Endpoint::SendSms
        } else if s.len() == 1 && s[0] == "mms"@ {
            Endpoint::SendMms
        } else if s.len() == 3 && s[0] == "messages"@ && s[2] == "retrieve"@ {
            id_endpoint(s[1], true)
        } else {
            Endpoint::NoSuchEndpoint
        }
    } else {
        Endpoint::NoSuchEndpoint
    }
}

/// What a request is for.
pub fn route(req: &HttpRequest) -> (r: Endpoint)
    ensures
        r == endpoint_of(req@.method, req@.path),
{
    let c = text::chars_of(req.path.as_str());
    let s = text::split_at_char(
        text::stripped_end(text::stripped_start(c.as_slice(), '/'), '/'),
        '/',
    );
    let ghost all = text::slices(s@);
    assert(all == segments(req@.path));
    assert(all[0] == s@[0]@);
    assert(s@.len() > 1 ==> all[1] == s@[1]@);
    assert(s@.len() > 2 ==> all[2] == s@[2]@);
    assert(s@.len() > 3 ==> all[3] == s@[3]@);
    let n = s.len();
    if text::str_is(req.method.as_str(), "GET") {
        if n == 1 && (s[0].len() == 0 || text::is(s[0], "health")) {
            Endpoint::Health
        } else if n == 1 && text::is(s[0], "cards") {
            Endpoint::Cards
        } else if n == 1 && text::is(s[0], "messages") {
            Endpoint::Messages
        } else if n == 2 && text::is(s[0], "messages") {
            match text::parse_i64(s[1]) {
                Some(id) => Endpoint::Message(id),
                None => Endpoint::BadId,
            }
        } else if n == 4 && text::is(s[0], "messages") && text::is(s[2], "attachments") {
            match (text::parse_i64(s[1]), text::parse_i64(s[3])) {
                (Some(message), Some(index)) => Endpoint::Attachment { message, index },
                _ => Endpoint::BadId,
            }
        } else {
            Endpoint::NoSuchEndpoint
        }
    } else if text::str_is(req.method.as_str(), "POST") {
        if n == 1 && text::is(s[0], "sms") {
            Endpoint::SendSms
        } else if n == 1 && text::is(s[0], "mms") {
            Endpoint::SendMms
        } else if n == 3 && text::is(s[0], "messages") && text::is(s[2], "retrieve") {
            match text::parse_i64(s[1]) {
                Some(id) => Endpoint::Retrieve(id),
                None => Endpoint::BadId,
            }
        } else {
            Endpoint::NoSuchEndpoint
        }
    } else {
        Endpoint::NoSuchEndpoint
    }
}

/// What is done about a request: it is refused, with a status and what is wrong, or work is done for
/// it.
#[derive(Debug)]
pub enum Handling {
    Refuse { status: u16, error: &'static str },
    Health,
    Cards,
    Messages { limit: i64, before: Option<i64> },
    Message(i64),
    Attachment { message: i64, index: i64 },
    SendSms,
    Retrieve(i64),
    SendMms,
}

pub open spec fn refused(h: Handling, code: u16, text: Seq<char>) -> bool {
    h matches Handling::Refuse { status, error } && status == code && error@ == text
}

/// What is done about a request, given the token that is configured.
pub open spec fn handled(w: Wish, token: Option<Seq<char>>, h: Handling) -> bool {
    if token.is_some() && token != Some(shown_token(w)) {
        refused(h, 401, "unauthorized"@)
    } else {
        match endpoint_of(w.method, w.path) {
            Endpoint::Health => h is Health,
            Endpoint::Cards => h is Cards,
            Endpoint::Messages => h matches Handling::Messages { limit, before } && limit
                == list_limit(w) && opt_int(before) == list_before(w),
            Endpoint::Message(id) => h == Handling::Message(id),
            Endpoint::Attachment { message, index } => h == (Handling::Attachment {
                message,
                index,
            }),
            Endpoint::SendSms => h is SendSms,
            Endpoint::Retrieve(id) => h == Handling::Retrieve(id),
            Endpoint::SendMms => h is SendMms,
            Endpoint::BadId => refused(h, 400, "bad id"@),
            Endpoint::NoSuchEndpoint => refused(h, 404, "no such endpoint"@),
        }
    }
}

/// Decide what a request gets. The token comes first: without it nothing is said of what there is.
pub fn handle(req: &HttpRequest, token: Option<&str>) -> (r: Handling)
    ensures
        handled(req@, text::opt_str(token), r),
{
    if !authorized(req, token) {
        return Handling::Refuse { status: 401, error: "unauthorized" };
    }
    match route(req) {
        Endpoint::Health => Handling::Health,
        Endpoint::Cards => Handling::Cards,
        Endpoint::Messages => {
            let (limit, before) = list_params(req);
            Handling::Messages { limit, before }
        },
        Endpoint::Message(id) => Handling::Message(id),
        Endpoint::Attachment { message, index } => Handling::Attachment { message, index },
        Endpoint::SendSms => Handling::SendSms,
        Endpoint::Retrieve(id) => Handling::Retrieve(id),
        Endpoint::SendMms => Handling::SendMms,
        Endpoint::BadId => Handling::Refuse { status: 400, error: "bad id" },
        Endpoint::NoSuchEndpoint => Handling::Refuse { status: 404, error: "no such endpoint" },
    }
}

/// Where a token is configured, a request that does not show it is refused the same way whatever it
/// asks for.
pub proof fn law_nothing_is_served_without_the_token(w: Wish, token: Seq<char>, h: Handling)
    requires
        shown_token(w) != token,
        handled(w, Some(token), h),
    ensures
        refused(h, 401, "unauthorized"@),
{
}

/// How the work for a request went.
#[derive(Debug, Clone, Copy, PartialEq, Eq, Structural)]
pub enum Outcome {
    Done,
    /// The body cannot be read.
    BadBody,
    NoModem,
    NotFound,
    DatabaseError,
    /// The attachment is stored and its file cannot be read.
    Unreadable,
    Failed,
}

/// The status of work: a submission is accepted, anything else is complete; a retrieval fails at the
/// carrier.
pub open spec fn outcome_status(h: Handling, o: Outcome) -> u16 {
    match o {
        Outcome::Done => if h is SendSms || h is SendMms {
            202
        } else {
            200
        },
        Outcome::BadBody => 400,
        Outcome::NoModem => 503,
        Outcome::NotFound => 404,
        Outcome::DatabaseError | Outcome::Unreadable => 500,
        Outcome::Failed => if h is Retrieve {
            502
        } else {
            500
        },
    }
}

pub fn status_of(h: &Handling, o: Outcome) -> (r: u16)
    ensures
        r == outcome_status(*h, o),
{
    match o {
        Outcome::Done => match h {
            Handling::SendSms | Handling::SendMms => 202,
            _ => 200,
        },
        Outcome::BadBody => 400,
        Outcome::NoModem => 503,
        Outcome::NotFound => 404,
        Outcome::DatabaseError | Outcome::Unreadable => 500,
        Outcome::Failed => match h {
            Handling::Retrieve(_) => 502,
            _ => 500,
        },
    }
}

/// What is said to be wrong, where the outcome says all of it.
pub fn error_of(o: Outcome) -> (r: Option<&'static str>)
    ensures
        text::opt_str(r) == match o {
            Outcome::NoModem => Some("no modem"@),
            Outcome::NotFound => Some("not found"@),
            Outcome::DatabaseError => Some("database error"@),
            Outcome::Unreadable => Some("attachment unreadable"@),
            Outcome::Done | Outcome::BadBody | Outcome::Failed => None,
        },
{
    match o {
        Outcome::NoModem => Some("no modem"),
        Outcome::NotFound => Some("not found"),
        Outcome::DatabaseError => Some("database error"),
        Outcome::Unreadable => Some("attachment unreadable"),
        Outcome::Done | Outcome::BadBody | Outcome::Failed => None,
    }
}

/// A status tells success from failure.
pub proof fn law_only_success_is_answered_as_such(h: Handling, o: Outcome)
    ensures
        outcome_status(h, o) < 300 <==> o == Outcome::Done,
        reason_of(outcome_status(h, o)) != "Status"@,
{
    reveal_strlit("OK");
    reveal_strlit("Accepted");
    reveal_strlit("Bad Request");
    reveal_strlit("Not Found");
    reveal_strlit("Internal Server Error");
    reveal_strlit("Bad Gateway");
    reveal_strlit("Service Unavailable");
    reveal_strlit("Status");
    assert("OK"@.len() == 2 && "Status"@.len() == 6);
    assert("Bad Request"@.len() == 11 && "Not Found"@.len() == 9);
}

/// The deadline of a request, in seconds. It has to clear the MMS budget: cancelling a submission
/// half-way leaves the row saying "sending" while the MMSC already has the message.
pub fn request_deadline(mms_timeout_secs: u64) -> (r: u64)
    requires
        mms_timeout_secs * 2 + 30 <= u64::MAX,
    ensures
        r == mms_timeout_secs * 2 + 30,
        r >= MIN_REQUEST_TIMEOUT,
{
    let wanted = mms_timeout_secs * 2 + 30;
    if wanted > MIN_REQUEST_TIMEOUT {
        wanted
    } else {
        MIN_REQUEST_TIMEOUT
    }
}

// ------------------------------------------------------------------ responses

pub open spec fn reason_of(status: u16) -> Seq<char> {
    match status {
        200 => "OK"@,
        202 => "Accepted"@,
        400 => "Bad Request"@,
        401 => "Unauthorized"@,
        404 => "Not Found"@,
        500 => "Internal Server Error"@,
        502 => "Bad Gateway"@,
        503 => "Service Unavailable"@,
        _ => "Status"@,
    }
}

fn reason(status: u16) -> (r: &'static str)
    ensures
        r@ == reason_of(status),
{
    match status {
        200 => "OK",
        202 => "Accepted",
        400 => "Bad Request",
        401 => "Unauthorized",
        404 => "Not Found",
        500 => "Internal Server Error",
        502 => "Bad Gateway",
        503 => "Service Unavailable",
        _ => "Status",
    }
}

/// A character that a media type may use.
pub open spec fn is_media_char(c: char) -> bool {
    text::is_alnum(c) || c == '/' || c == '.' || c == '+' || c == '-' || c == '_' || c == ';' || c
        == '=' || c == ' '
}

/// The characters of the first line that a media type may use, up to a number.
pub open spec fn media_chars(s: Seq<char>, limit: nat) -> Seq<char>
    decreases s.len(),
{
    if s.len() == 0 || limit == 0 || s[0] == '\r' || s[0] == '\n' {
        seq![]
    } else if is_media_char(s[0]) {
        seq![s[0]] + media_chars(s.skip(1), (limit - 1) as nat)
    } else {
        media_chars(s.skip(1), limit)
    }
}

/// A media type that is safe in a head.
pub open spec fn media_type(s: Seq<char>) -> Seq<char> {
    let t = text::trim(media_chars(s, 128));
    if t.len() == 0 || !t.contains('/') {
        "application/octet-stream"@
    } else {
        t
    }
}

/// Make a media type safe to interpolate into a response head.
///
/// An MMS part names its own Content-Type as a free-form string decoded straight from the PDU, so it
/// can contain CRLF and split the response into headers and a body of the sender's choosing. Only
/// the characters a media type is allowed to use survive.
pub fn sanitize_media_type(raw: &str) -> (r: String)
    ensures
        r@ == media_type(raw@),
{
    let c = text::chars_of(raw);
    let mut out: Vec<char> = Vec::new();
    let mut i: usize = 0;
    assert(c@.skip(0) =~= c@);
    assert(out@ + media_chars(c@, 128) =~= media_chars(c@, 128));
    while i < c.len() && out.len() < 128 && c[i] != '\r' && c[i] != '\n'
        invariant
            i <= c@.len(),
            out@.len() <= 128,
            out@ + media_chars(c@.skip(i as int), (128 - out@.len()) as nat) == media_chars(
                c@,
                128,
            ),
        decreases c@.len() - i,
    {
        let ch = c[i];
        let ghost so_far = out@;
        assert(c@.skip(i as int)[0] == ch);
        assert(c@.skip(i as int).skip(1) =~= c@.skip(i + 1));
        if text::alnum(ch) || ch == '/' || ch == '.' || ch == '+' || ch == '-' || ch == '_' || ch
            == ';' || ch == '=' || ch == ' ' {
            out.push(ch);
            let ghost tail = media_chars(c@.skip(i + 1), (128 - so_far.len() - 1) as nat);
            assert(so_far + (seq![ch] + tail) =~= out@ + tail);
        }
        i += 1;
    }
    assert(media_chars(c@.skip(i as int), (128 - out@.len()) as nat) =~= seq![]);
    assert(out@ =~= media_chars(c@, 128));
    let t = text::trimmed(out.as_slice());
    if t.len() == 0 || !text::contains_char(t, '/') {
        text::owned("application/octet-stream")
    } else {
        text::string_of(t)
    }
}

proof fn lemma_media_chars(s: Seq<char>, limit: nat)
    ensures
        media_chars(s, limit).len() <= limit,
        forall|i: int|
            0 <= i < media_chars(s, limit).len() ==> is_media_char(
                #[trigger] media_chars(s, limit)[i],
            ),
    decreases s.len(),
{
    if !(s.len() == 0 || limit == 0 || s[0] == '\r' || s[0] == '\n') {
        if is_media_char(s[0]) {
            lemma_media_chars(s.skip(1), (limit - 1) as nat);
        } else {
            lemma_media_chars(s.skip(1), limit);
        }
    }
}

proof fn lemma_trim_part(s: Seq<char>)
    ensures
        text::trim(s).len() <= s.len(),
        forall|i: int| 0 <= i < text::trim(s).len() ==> s.contains(#[trigger] text::trim(s)[i]),
{
    let t = text::trim_start(s);
    text::lemma_trim_start(s);
    text::lemma_trim_end(t);
    lemma_start_part(s);
    lemma_end_part(t);
    assert forall|i: int| 0 <= i < text::trim(s).len() implies s.contains(
        #[trigger] text::trim(s)[i],
    ) by {
        assert(t.contains(text::trim_end(t)[i]));
        let k = choose|k: int| 0 <= k < t.len() && t[k] == text::trim_end(t)[i];
        assert(s.contains(t[k]));
    }
}

proof fn lemma_start_part(s: Seq<char>)
    ensures
        text::trim_start(s).len() <= s.len(),
        forall|i: int|
            0 <= i < text::trim_start(s).len() ==> s.contains(#[trigger] text::trim_start(s)[i]),
    decreases s.len(),
{
    if s.len() > 0 && text::is_space(s[0]) {
        lemma_start_part(s.skip(1));
        assert forall|i: int| 0 <= i < text::trim_start(s).len() implies s.contains(
            #[trigger] text::trim_start(s)[i],
        ) by {
            let r = s.skip(1);
            assert(r.contains(text::trim_start(r)[i]));
            let k = choose|k: int| 0 <= k < r.len() && r[k] == text::trim_start(r)[i];
            assert(s[k + 1] == r[k]);
        }
    } else {
        assert forall|i: int| 0 <= i < text::trim_start(s).len() implies s.contains(
            #[trigger] text::trim_start(s)[i],
        ) by {
            assert(s[i] == text::trim_start(s)[i]);
        }
    }
}

proof fn lemma_end_part(s: Seq<char>)
    ensures
        text::trim_end(s).len() <= s.len(),
        forall|i: int|
            0 <= i < text::trim_end(s).len() ==> s.contains(#[trigger] text::trim_end(s)[i]),
    decreases s.len(),
{
    if s.len() > 0 && text::is_space(s.last()) {
        lemma_end_part(s.drop_last());
        assert forall|i: int| 0 <= i < text::trim_end(s).len() implies s.contains(
            #[trigger] text::trim_end(s)[i],
        ) by {
            let r = s.drop_last();
            assert(r.contains(text::trim_end(r)[i]));
            let k = choose|k: int| 0 <= k < r.len() && r[k] == text::trim_end(r)[i];
            assert(s[k] == r[k]);
        }
    } else {
        assert forall|i: int| 0 <= i < text::trim_end(s).len() implies s.contains(
            #[trigger] text::trim_end(s)[i],
        ) by {
            assert(s[i] == text::trim_end(s)[i]);
        }
    }
}

/// A media type cannot break out of its header: whatever it was, only the characters of media types
/// are left, and at most 128 of them.
pub proof fn law_a_media_type_stays_on_its_line(s: Seq<char>)
    ensures
        media_type(s).len() <= 128,
        forall|i: int| 0 <= i < media_type(s).len() ==> is_media_char(#[trigger] media_type(s)[i]),
        !media_type(s).contains('\r'),
        !media_type(s).contains('\n'),
{
    let m = media_chars(s, 128);
    lemma_media_chars(s, 128);
    lemma_trim_part(m);
    reveal_strlit("application/octet-stream");
    assert forall|i: int| 0 <= i < media_type(s).len() implies is_media_char(
        #[trigger] media_type(s)[i],
    ) by {
        let t = text::trim(m);
        if !(t.len() == 0 || !t.contains('/')) {
            assert(m.contains(t[i]));
            let k = choose|k: int| 0 <= k < m.len() && m[k] == t[i];
            assert(is_media_char(m[k]));
        }
    }
}

/// The head of a response.
pub open spec fn response_head(
    status: u16,
    content_type: Seq<char>,
    extra: Seq<char>,
    length: nat,
) -> Seq<char> {
    "HTTP/1.1 "@ + text::dec(status as nat) + " "@ + reason_of(status) + "\r\nContent-Type: "@
        + media_type(content_type) + "\r\n"@ + extra + "Content-Length: "@ + text::dec(length)
        + "\r\nConnection: close\r\n\r\n"@
}

/// The head of a response, with headers of its own.
pub fn respond_bytes_with(status: u16, content_type: &str, extra_headers: &str, length: usize) -> (r:
    String)
    ensures
        r@ == response_head(status, content_type@, extra_headers@, length as nat),
{
    let mut out = text::owned("HTTP/1.1 ");
    text::push_dec(&mut out, status as u64);
    out.append(" ");
    out.append(reason(status));
    out.append("\r\nContent-Type: ");
    out.append(sanitize_media_type(content_type).as_str());
    out.append("\r\n");
    out.append(extra_headers);
    out.append("Content-Length: ");
    text::push_dec(&mut out, length as u64);
    out.append("\r\nConnection: close\r\n\r\n");
    out
}

/// The headers that go with an attachment. The bytes and the declared type both come from whoever
/// sent the MMS, so the browser is told not to sniff and not to render it inline.
pub fn attachment_headers() -> (r: &'static str)
    ensures
        r@ == "X-Content-Type-Options: nosniff\r\nContent-Disposition: attachment\r\n"@,
{
    "X-Content-Type-Options: nosniff\r\nContent-Disposition: attachment\r\n"
}

} // verus!
