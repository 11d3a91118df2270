//! HTTP digest authentication (RFC 2617, MD5 / MD5-sess, qop=auth) for SIP.
use vstd::prelude::*;
use vstd::utf8::*;

use md5::Digest;
use rand::Rng;

use crate::text;

verus! {

// ------------------------------------------------------------------ outside functions

/// The MD5 digest of bytes.
pub uninterp spec fn md5_of(data: Seq<u8>) -> Seq<u8>;

/// `md5::Md5::digest`: the sixteen bytes of the digest, a function of the data.
#[verifier::external_body]
fn md5_digest(data: &[u8]) -> (r: Vec<u8>)
    ensures
        r@ == md5_of(data@),
        r@.len() == 16,
{
    md5::Md5::digest(data).to_vec()
}

/// `rand::Rng::gen` on the generator of the thread: any byte.
#[verifier::external_body]
pub(crate) fn random_byte() -> (r: u8)
{
    rand::thread_rng().gen::<u8>()
}

/// `chrono::Local::now` and `DateTime::timestamp`: the seconds since the epoch, by the machine's
/// clock.
#[verifier::external_body]
pub(crate) fn unix_now() -> (r: i64)
{
    chrono::Local::now().timestamp()
}

// ------------------------------------------------------------------ digests and random texts

/// The digest of bytes in hexadecimal.
pub open spec fn md5_text(data: Seq<u8>) -> Seq<char> {
    text::hex_bytes(md5_of(data))
}

pub fn md5_hex(data: &[u8]) -> (r: String)
    ensures
        r@ == md5_text(data@),
{
    text::hex_of(md5_digest(data).as_slice())
}

/// A text of this many random bytes in hexadecimal.
pub open spec fn is_hex_text(t: Seq<char>, bytes: nat) -> bool {
    exists|b: Seq<u8>| b.len() == bytes && t == #[trigger] text::hex_bytes(b)
}

pub fn random_hex(bytes: usize) -> (r: String)
    ensures
        is_hex_text(r@, bytes as nat),
{
    let mut b: Vec<u8> = Vec::new();
    while b.len() < bytes
        invariant
            b@.len() <= bytes,
        decreases bytes - b@.len(),
    {
        b.push(random_byte());
    }
    text::hex_of(b.as_slice())
}

/// Two bytes differ in no bit, and nothing differed before.
proof fn lemma_difference(acc: u8, a: u8, b: u8)
    ensures
        (acc | (a ^ b)) == 0 <==> acc == 0 && a == b,
{
    assert((acc | (a ^ b)) == 0 <==> acc == 0 && a == b) by (bit_vector);
}

/// Equality of two texts in a time that does not depend on where they differ.
pub fn constant_time_eq(a: &str, b: &str) -> (r: bool)
    ensures
        r == (a@ == b@),
{
    broadcast use vstd::utf8::encode_utf8_decode_utf8;

    let x = a.as_bytes();
    let y = b.as_bytes();
    if x.len() != y.len() {
        return false;
    }
    let mut acc: u8 = 0;
    let mut i: usize = 0;
    while i < x.len()
        invariant
            i <= x@.len(),
            x@.len() == y@.len(),
            (acc == 0) == (forall|j: int| 0 <= j < i ==> x@[j] == y@[j]),
        decreases x@.len() - i,
    {
        proof {
            lemma_difference(acc, x@[i as int], y@[i as int]);
        }
        acc = acc | (x[i] ^ y[i]);
        i += 1;
    }
    proof {
        if acc == 0 {
            assert(x@ =~= y@);
            assert(decode_utf8(encode_utf8(a@)) == decode_utf8(encode_utf8(b@)));
        }
    }
    acc == 0
}

// ------------------------------------------------------------------ parameters

pub open spec fn is_ascii_space(c: char) -> bool {
    c == ' ' || c == '\t' || c == '\n' || c == '\x0c' || c == '\r'
}

fn ascii_space(c: char) -> (r: bool)
    ensures
        r == is_ascii_space(c),
{
    c == ' ' || c == '\t' || c == '\n' || c == '\x0c' || c == '\r'
}

/// The text behind the commas and white space at its start.
pub open spec fn skip_separators(s: Seq<char>) -> Seq<char>
    decreases s.len(),
{
    if s.len() > 0 && (s[0] == ',' || is_ascii_space(s[0])) {
        skip_separators(s.skip(1))
    } else {
        s
    }
}

pub open spec fn skip_spaces(s: Seq<char>) -> Seq<char>
    decreases s.len(),
{
    if s.len() > 0 && is_ascii_space(s[0]) {
        skip_spaces(s.skip(1))
    } else {
        s
    }
}

/// The place of the first equals sign or comma, or the length.
pub open spec fn key_end(s: Seq<char>) -> int
    decreases s.len(),
{
    if s.len() == 0 || s[0] == '=' || s[0] == ',' {
        0
    } else {
        1 + key_end(s.skip(1))
    }
}

/// The value of a parameter, and what follows it: a quoted text, or everything up to a comma.
pub open spec fn value_of(s: Seq<char>) -> (Seq<char>, Seq<char>) {
    let u = skip_spaces(s);
    if u.len() > 0 && u[0] == '"' {
        let v = u.skip(1);
        let e = text::find(v, '"');
        (
            v.take(e),
            if e < v.len() {
                v.skip(e + 1)
            } else {
                v.skip(e)
            },
        )
    } else {
        let e = text::find(u, ',');
        (text::trim(u.take(e)), u.skip(e))
    }
}

/// The parameters of a digest header, names in lower case, in order.
pub open spec fn digest_params(s: Seq<char>) -> Seq<(Seq<char>, Seq<char>)>
    decreases s.len(),
    via digest_params_decreases
{
    let t = skip_separators(s);
    let k = key_end(t);
    let key = text::lower(text::trim(t.take(k)));
    if key.len() == 0 {
        seq![]
    } else if k >= t.len() || t[k] == ',' {
        seq![(key, Seq::<char>::empty())] + digest_params(t.skip(k))
    } else {
        let (value, rest) = value_of(t.skip(k + 1));
        seq![(key, value)] + digest_params(rest)
    }
}

pub proof fn lemma_separators(s: Seq<char>)
    ensures
        skip_separators(s).len() <= s.len(),
        skip_spaces(s).len() <= s.len(),
        0 <= key_end(s) <= s.len(),
        key_end(s) < s.len() ==> s[key_end(s)] == '=' || s[key_end(s)] == ',',
    decreases s.len(),
{
    if s.len() > 0 {
        lemma_separators(s.skip(1));
    }
}

pub proof fn lemma_value_rest(s: Seq<char>)
    ensures
        value_of(s).1.len() <= s.len(),
{
    lemma_separators(s);
    let u = skip_spaces(s);
    text::lemma_find(u, ',');
    if u.len() > 0 {
        text::lemma_find(u.skip(1), '"');
    }
}

proof fn lemma_key_is_consumed(s: Seq<char>)
    requires
        text::lower(text::trim(skip_separators(s).take(key_end(skip_separators(s))))).len() > 0,
    ensures
        key_end(skip_separators(s)) > 0,
        skip_separators(s).len() <= s.len(),
        key_end(skip_separators(s)) <= skip_separators(s).len(),
{
    lemma_separators(s);
    let t = skip_separators(s);
    lemma_separators(t);
    if key_end(t) == 0 {
        assert(t.take(0) =~= Seq::<char>::empty());
        text::lemma_trim_start(t.take(0));
        text::lemma_trim_end(text::trim_start(t.take(0)));
    }
}

#[via_fn]
proof fn digest_params_decreases(s: Seq<char>) {
    let t = skip_separators(s);
    let k = key_end(t);
    lemma_separators(s);
    lemma_separators(t);
    if text::lower(text::trim(t.take(k))).len() > 0 {
        lemma_key_is_consumed(s);
        if k < t.len() {
            lemma_value_rest(t.skip(k + 1));
        }
    }
}

/// The value of the last parameter of a name.
pub open spec fn last_value(ps: Seq<(Seq<char>, Seq<char>)>, name: Seq<char>) -> Option<Seq<char>>
    decreases ps.len(),
{
    if ps.len() == 0 {
        None
    } else if ps.last().0 == name {
        Some(ps.last().1)
    } else {
        last_value(ps.drop_last(), name)
    }
}

fn separators_skipped(s: &[char]) -> (r: &[char])
    ensures
        r@ == skip_separators(s@),
{
    let mut i: usize = 0;
    assert(s@.skip(0) =~= s@);
    while i < s.len() && (s[i] == ',' || ascii_space(s[i]))
        invariant
            i <= s@.len(),
            skip_separators(s@) == skip_separators(s@.skip(i as int)),
        decreases s@.len() - i,
    {
        assert(s@.skip(i as int).skip(1) =~= s@.skip(i + 1));
        i += 1;
    }
    text::skip(s, i)
}

fn spaces_skipped(s: &[char]) -> (r: &[char])
    ensures
        r@ == skip_spaces(s@),
{
    let mut i: usize = 0;
    assert(s@.skip(0) =~= s@);
    while i < s.len() && ascii_space(s[i])
        invariant
            i <= s@.len(),
            skip_spaces(s@) == skip_spaces(s@.skip(i as int)),
        decreases s@.len() - i,
    {
        assert(s@.skip(i as int).skip(1) =~= s@.skip(i + 1));
        i += 1;
    }
    text::skip(s, i)
}

fn key_length(s: &[char]) -> (r: usize)
    ensures
        r == key_end(s@),
        r <= s@.len(),
{
    let mut i: usize = 0;
    assert(s@.skip(0) =~= s@);
    while i < s.len() && s[i] != '=' && s[i] != ','
        invariant
            i <= s@.len(),
            key_end(s@) == i + key_end(s@.skip(i as int)),
        decreases s@.len() - i,
    {
        assert(s@.skip(i as int).skip(1) =~= s@.skip(i + 1));
        i += 1;
    }
    i
}

fn read_value(s: &[char]) -> (r: (String, &[char]))
    ensures
        (r.0@, r.1@) == value_of(s@),
{
    let u = spaces_skipped(s);
    if u.len() > 0 && u[0] == '"' {
        let v = text::skip(u, 1);
        let e = text::index_of(v, '"');
        let value = text::string_of(text::take(v, e));
        if e < v.len() {
            (value, text::skip(v, e + 1))
        } else {
            (value, text::skip(v, e))
        }
    } else {
        let e = text::index_of(u, ',');
        (text::string_of(text::trimmed(text::take(u, e))), text::skip(u, e))
    }
}

fn parse_params(s: &[char]) -> (r: Vec<(String, String)>)
    ensures
        text::pairs(r@) == digest_params(s@),
{
    let mut out: Vec<(String, String)> = Vec::new();
    let mut rest: &[char] = s;
    assert(text::pairs(out@) + digest_params(rest@) =~= digest_params(s@));
    loop
        invariant
            text::pairs(out@) + digest_params(rest@) == digest_params(s@),
        decreases rest@.len(),
    {
        let ghost before = out@;
        let ghost r0 = rest@;
        let t = separators_skipped(rest);
        let k = key_length(t);
        let key = text::lowercase(text::trimmed(text::take(t, k)));
        if key.len() == 0 {
            assert(digest_params(r0) =~= Seq::<(Seq<char>, Seq<char>)>::empty());
            assert(text::pairs(out@) =~= digest_params(s@));
            return out;
        }
        proof {
            lemma_key_is_consumed(r0);
        }
        let key = text::string_of(key.as_slice());
        if k >= t.len() || t[k] == ',' {
            out.push((key, String::new()));
            rest = text::skip(t, k);
            proof {
                assert(text::pairs(out@) =~= text::pairs(before).push(
                    (key@, Seq::<char>::empty()),
                ));
                assert(text::pairs(before) + digest_params(r0) =~= text::pairs(out@)
                    + digest_params(rest@));
            }
        } else {
            proof {
                lemma_value_rest(t@.skip(k + 1));
            }
            let (value, after) = read_value(text::skip(t, k + 1));
            out.push((key, value));
            rest = after;
            proof {
                assert(text::pairs(out@) =~= text::pairs(before).push((key@, value@)));
                assert(text::pairs(before) + digest_params(r0) =~= text::pairs(out@)
                    + digest_params(rest@));
            }
        }
    }
}

fn last_param(ps: &Vec<(String, String)>, name: &str) -> (r: Option<String>)
    ensures
        text::opt_text(r) == last_value(text::pairs(ps@), name@),
{
    let ghost all = text::pairs(ps@);
    let mut i: usize = ps.len();
    assert(all.take(i as int) =~= all);
    while i > 0
        invariant
            i <= ps@.len(),
            all == text::pairs(ps@),
            last_value(all, name@) == last_value(all.take(i as int), name@),
        decreases i,
    {
        i -= 1;
        assert(all.take(i + 1).drop_last() =~= all.take(i as int));
        assert(all.take(i + 1).last() == all[i as int]);
        if text::str_is(ps[i].0.as_str(), name) {
            return Some(ps[i].1.clone());
        }
    }
    None
}

pub open spec fn text_or_empty(v: Option<Seq<char>>) -> Seq<char> {
    match v {
        Some(t) => t,
        None => seq![],
    }
}

fn or_empty(v: Option<String>) -> (r: String)
    ensures
        r@ == text_or_empty(text::opt_text(v)),
{
    match v {
        Some(t) => t,
        None => String::new(),
    }
}

fn str_or_empty<'a>(v: Option<&'a str>) -> (r: &'a str)
    ensures
        r@ == text_or_empty(text::opt_str(v)),
{
    match v {
        Some(t) => t,
        None => {
            proof {
                reveal_strlit("");
                assert(""@ =~= Seq::<char>::empty());
            }
            ""
        },
    }
}

fn as_str(v: &Option<String>) -> (r: Option<&str>)
    ensures
        text::opt_str(r) == text::opt_text(*v),
{
    match v {
        Some(t) => Some(t.as_str()),
        None => None,
    }
}

// ------------------------------------------------------------------ challenges

#[derive(Debug)]
pub struct Challenge {
    pub realm: String,
    pub nonce: String,
    pub opaque: Option<String>,
    pub qop: Option<String>,
    pub algorithm: Option<String>,
}

/// A challenge, mathematically.
#[verifier::ext_equal]
pub struct Posed {
    pub realm: Seq<char>,
    pub nonce: Seq<char>,
    pub opaque: Option<Seq<char>>,
    pub qop: Option<Seq<char>>,
    pub algorithm: Option<Seq<char>>,
}

impl View for Challenge {
    type V = Posed;

    open spec fn view(&self) -> Posed {
        Posed {
            realm: self.realm@,
            nonce: self.nonce@,
            opaque: text::opt_text(self.opaque),
            qop: text::opt_text(self.qop),
            algorithm: text::opt_text(self.algorithm),
        }
    }
}

/// The scheme of a header value and the parameters behind it.
pub open spec fn scheme_and_rest(v: Seq<char>) -> Option<(Seq<char>, Seq<char>)> {
    let t = text::trim(v);
    let k = text::find_space(t);
    if k < t.len() {
        Some((t.take(k), t.skip(k + 1)))
    } else {
        None
    }
}

fn cut_scheme(v: &[char]) -> (r: Option<(&[char], &[char])>)
    ensures
        text::opt_pair(r) == scheme_and_rest(v@),
{
    let t = text::trimmed(v);
    let k = text::space_index(t);
    if k < t.len() {
        Some((text::take(t, k), text::skip(t, k + 1)))
    } else {
        None
    }
}

pub open spec fn challenge_of(v: Seq<char>) -> Option<Posed> {
    match scheme_and_rest(v) {
        None => None,
        Some((_, rest)) => {
            let p = digest_params(rest);
            Some(
                Posed {
                    realm: text_or_empty(last_value(p, "realm"@)),
                    nonce: text_or_empty(last_value(p, "nonce"@)),
                    opaque: last_value(p, "opaque"@),
                    qop: last_value(p, "qop"@),
                    algorithm: last_value(p, "algorithm"@),
                },
            )
        },
    }
}

/// The algorithm is one that can be answered: MD5, which is also meant where none is named.
pub open spec fn supported(c: Posed) -> bool {
    match c.algorithm {
        None => true,
        Some(a) => text::eq_nocase(a, "MD5"@) || text::eq_nocase(a, "MD5-sess"@),
    }
}

impl Challenge {
    /// Parse a WWW-Authenticate / Proxy-Authenticate header value.
    pub fn parse(value: &str) -> (r: Option<Challenge>)
        ensures
            match r {
                Some(c) => challenge_of(value@) == Some(c@),
                None => challenge_of(value@).is_none(),
            },
    {
        let c = text::chars_of(value);
        match cut_scheme(c.as_slice()) {
            None => None,
            Some((_, rest)) => {
                let p = parse_params(rest);
                Some(
                    Challenge {
                        realm: or_empty(last_param(&p, "realm")),
                        nonce: or_empty(last_param(&p, "nonce")),
                        opaque: last_param(&p, "opaque"),
                        qop: last_param(&p, "qop"),
                        algorithm: last_param(&p, "algorithm"),
                    },
                )
            },
        }
    }

    pub fn is_supported(&self) -> (r: bool)
        ensures
            r == supported(self@),
    {
        match &self.algorithm {
            None => true,
            Some(a) => text::str_is_nocase(a.as_str(), "MD5") || text::str_is_nocase(
                a.as_str(),
                "MD5-sess",
            ),
        }
    }
}

/// The first challenge of a list of header values that can be answered.
pub open spec fn first_supported(values: Seq<Seq<char>>) -> Option<Posed>
    decreases values.len(),
{
    if values.len() == 0 {
        None
    } else {
        match challenge_of(values[0]) {
            Some(c) => if supported(c) {
                Some(c)
            } else {
                first_supported(values.skip(1))
            },
            None => first_supported(values.skip(1)),
        }
    }
}

/// The first challenge that can be answered: a peer may offer several, strongest first, and only
/// some of them are ones we can answer.
pub fn pick_challenge(values: &Vec<&str>) -> (r: Option<Challenge>)
    ensures
        match r {
            Some(c) => first_supported(Seq::new(values@.len(), |i: int| values@[i]@)) == Some(c@),
            None => first_supported(Seq::new(values@.len(), |i: int| values@[i]@)).is_none(),
        },
{
    let ghost all = Seq::new(values@.len(), |i: int| values@[i]@);
    let mut i: usize = 0;
    assert(all.skip(0) =~= all);
    while i < values.len()
        invariant
            i <= values@.len(),
            all == Seq::new(values@.len(), |i: int| values@[i]@),
            first_supported(all) == first_supported(all.skip(i as int)),
        decreases values@.len() - i,
    {
        assert(all.skip(i as int).skip(1) =~= all.skip(i + 1));
        assert(all.skip(i as int)[0] == values@[i as int]@);
        if let Some(c) = Challenge::parse(values[i]) {
            if c.is_supported() {
                return Some(c);
            }
        }
        i += 1;
    }
    None
}

// ------------------------------------------------------------------ credentials

#[derive(Debug)]
pub struct Credentials {
    pub username: String,
    pub realm: String,
    pub nonce: String,
    pub uri: String,
    pub response: String,
    pub algorithm: Option<String>,
    pub cnonce: Option<String>,
    pub nc: Option<String>,
    pub qop: Option<String>,
    pub opaque: Option<String>,
}

/// Credentials, mathematically.
#[verifier::ext_equal]
pub struct Shown {
    pub username: Seq<char>,
    pub realm: Seq<char>,
    pub nonce: Seq<char>,
    pub uri: Seq<char>,
    pub response: Seq<char>,
    pub algorithm: Option<Seq<char>>,
    pub cnonce: Option<Seq<char>>,
    pub nc: Option<Seq<char>>,
    pub qop: Option<Seq<char>>,
    pub opaque: Option<Seq<char>>,
}

impl View for Credentials {
    type V = Shown;

    open spec fn view(&self) -> Shown {
        Shown {
            username: self.username@,
            realm: self.realm@,
            nonce: self.nonce@,
            uri: self.uri@,
            response: self.response@,
            algorithm: text::opt_text(self.algorithm),
            cnonce: text::opt_text(self.cnonce),
            nc: text::opt_text(self.nc),
            qop: text::opt_text(self.qop),
            opaque: text::opt_text(self.opaque),
        }
    }
}

pub open spec fn credentials_of(v: Seq<char>) -> Option<Shown> {
    match scheme_and_rest(v) {
        None => None,
        Some((scheme, rest)) => if !text::eq_nocase(scheme, "Digest"@) {
            None
        } else {
            let p = digest_params(rest);
            Some(
                Shown {
                    username: text_or_empty(last_value(p, "username"@)),
                    realm: text_or_empty(last_value(p, "realm"@)),
                    nonce: text_or_empty(last_value(p, "nonce"@)),
                    uri: text_or_empty(last_value(p, "uri"@)),
                    response: text_or_empty(last_value(p, "response"@)),
                    algorithm: last_value(p, "algorithm"@),
                    cnonce: last_value(p, "cnonce"@),
                    nc: last_value(p, "nc"@),
                    qop: last_value(p, "qop"@),
                    opaque: last_value(p, "opaque"@),
                },
            )
        },
    }
}

/// A prefix, a value and a suffix, where there is a value.
pub open spec fn optional_piece(before: Seq<char>, v: Option<Seq<char>>, after: Seq<char>) -> Seq<
    char,
> {
    match v {
        Some(t) => before + t + after,
        None => seq![],
    }
}

/// The five parts every answer has.
pub open spec fn fixed_header(c: Shown) -> Seq<char> {
    "Digest username=\""@ + c.username + "\", realm=\""@ + c.realm + "\", nonce=\""@ + c.nonce
        + "\", uri=\""@ + c.uri + "\", response=\""@ + c.response + "\""@
}

/// Credentials as they are written: the count and the client nonce only where there is a quality of
/// protection.
pub open spec fn header_text(c: Shown) -> Seq<char> {
    fixed_header(c) + optional_piece(", algorithm="@, c.algorithm, seq![]) + (match c.qop {
        Some(q) => ", qop="@ + q + optional_piece(", nc="@, c.nc, seq![]) + optional_piece(
            ", cnonce=\""@,
            c.cnonce,
            "\""@,
        ),
        None => seq![],
    }) + optional_piece(", opaque=\""@, c.opaque, "\""@)
}

fn push_optional(out: &mut String, before: &str, v: &Option<String>, after: &str)
    ensures
        final(out)@ == old(out)@ + optional_piece(before@, text::opt_text(*v), after@),
{
    if let Some(t) = v {
        out.append(before);
        out.append(t.as_str());
        out.append(after);
    }
    assert(out@ =~= old(out)@ + optional_piece(before@, text::opt_text(*v), after@));
}

impl Credentials {
    /// Parse an Authorization / Proxy-Authorization header value.
    pub fn parse(value: &str) -> (r: Option<Credentials>)
        ensures
            match r {
                Some(c) => credentials_of(value@) == Some(c@),
                None => credentials_of(value@).is_none(),
            },
    {
        let c = text::chars_of(value);
        match cut_scheme(c.as_slice()) {
            None => None,
            Some((scheme, rest)) => {
                if !text::is_nocase(scheme, "Digest") {
                    return None;
                }
                let p = parse_params(rest);
                Some(
                    Credentials {
                        username: or_empty(last_param(&p, "username")),
                        realm: or_empty(last_param(&p, "realm")),
                        nonce: or_empty(last_param(&p, "nonce")),
                        uri: or_empty(last_param(&p, "uri")),
                        response: or_empty(last_param(&p, "response")),
                        algorithm: last_param(&p, "algorithm"),
                        cnonce: last_param(&p, "cnonce"),
                        nc: last_param(&p, "nc"),
                        qop: last_param(&p, "qop"),
                        opaque: last_param(&p, "opaque"),
                    },
                )
            },
        }
    }

    pub fn to_header(&self) -> (r: String)
        ensures
            r@ == header_text(self@),
    {
        let mut s = text::owned("Digest username=\"");
        s.append(self.username.as_str());
        s.append("\", realm=\"");
        s.append(self.realm.as_str());
        s.append("\", nonce=\"");
        s.append(self.nonce.as_str());
        s.append("\", uri=\"");
        s.append(self.uri.as_str());
        s.append("\", response=\"");
        s.append(self.response.as_str());
        s.append("\"");
        proof {
            reveal_strlit("");
            assert(""@ =~= Seq::<char>::empty());
        }
        push_optional(&mut s, ", algorithm=", &self.algorithm, "");
        let ghost s1 = s@;
        if let Some(q) = &self.qop {
            s.append(", qop=");
            s.append(q.as_str());
            push_optional(&mut s, ", nc=", &self.nc, "");
            push_optional(&mut s, ", cnonce=\"", &self.cnonce, "\"");
            assert(s@ =~= s1 + (", qop="@ + q@ + optional_piece(", nc="@, self@.nc, seq![])
                + optional_piece(", cnonce=\""@, self@.cnonce, "\""@)));
        } else {
            assert(s1 + Seq::<char>::empty() =~= s1);
        }
        push_optional(&mut s, ", opaque=\"", &self.opaque, "\"");
        s
    }
}

// ------------------------------------------------------------------ responses

/// The first secret: who, where and the password, bound to the nonces for a session algorithm.
pub open spec fn secret_of(
    username: Seq<char>,
    password: Seq<char>,
    realm: Seq<char>,
    nonce: Seq<char>,
    cnonce: Option<Seq<char>>,
    algorithm: Option<Seq<char>>,
) -> Seq<char> {
    let ha1 = md5_text(encode_utf8(username + ":"@ + realm + ":"@ + password));
    if algorithm.is_some() && text::eq_nocase(algorithm.unwrap(), "MD5-sess"@) {
        md5_text(encode_utf8(ha1 + ":"@ + nonce + ":"@ + text_or_empty(cnonce)))
    } else {
        ha1
    }
}

/// What is asked for: method and target, and the body where its integrity is protected.
pub open spec fn subject_of(
    method: Seq<char>,
    uri: Seq<char>,
    qop: Option<Seq<char>>,
    body: Seq<u8>,
) -> Seq<char> {
    if qop.is_some() && text::eq_nocase(qop.unwrap(), "auth-int"@) {
        md5_text(encode_utf8(method + ":"@ + uri + ":"@ + md5_text(body)))
    } else {
        md5_text(encode_utf8(method + ":"@ + uri))
    }
}

/// The digest response (RFC 2617).
pub open spec fn response_of(
    username: Seq<char>,
    password: Seq<char>,
    realm: Seq<char>,
    nonce: Seq<char>,
    method: Seq<char>,
    uri: Seq<char>,
    qop: Option<Seq<char>>,
    cnonce: Option<Seq<char>>,
    nc: Option<Seq<char>>,
    algorithm: Option<Seq<char>>,
    body: Seq<u8>,
) -> Seq<char> {
    let ha1 = secret_of(username, password, realm, nonce, cnonce, algorithm);
    let ha2 = subject_of(method, uri, qop, body);
    if qop.is_some() && qop.unwrap().len() > 0 {
        md5_text(
            encode_utf8(
                ha1 + ":"@ + nonce + ":"@ + (match nc {
                    Some(n) => n,
                    None => "00000001"@,
                }) + ":"@ + text_or_empty(cnonce) + ":"@ + qop.unwrap() + ":"@ + ha2,
            ),
        )
    } else {
        md5_text(encode_utf8(ha1 + ":"@ + nonce + ":"@ + ha2))
    }
}

fn md5_of_text(t: &String) -> (r: String)
    ensures
        r@ == md5_text(encode_utf8(t@)),
{
    md5_hex(t.as_str().as_bytes())
}

/// Compute the digest response value.
pub fn digest_response(
    username: &str,
    password: &str,
    realm: &str,
    nonce: &str,
    method: &str,
    uri: &str,
    qop: Option<&str>,
    cnonce: Option<&str>,
    nc: Option<&str>,
    algorithm: Option<&str>,
    body: &[u8],
) -> (r: String)
    ensures
        r@ == response_of(
            username@,
            password@,
            realm@,
            nonce@,
            method@,
            uri@,
            text::opt_str(qop),
            text::opt_str(cnonce),
            text::opt_str(nc),
            text::opt_str(algorithm),
            body@,
        ),
{
    let mut s = text::owned(username);
    s.append(":");
    s.append(realm);
    s.append(":");
    s.append(password);
    let mut ha1 = md5_of_text(&s);
    let session = match algorithm {
        Some(a) => text::str_is_nocase(a, "MD5-sess"),
        None => false,
    };
    if session {
        let mut s = ha1.clone();
        s.append(":");
        s.append(nonce);
        s.append(":");
        s.append(str_or_empty(cnonce));
        ha1 = md5_of_text(&s);
    }
    let integrity = match qop {
        Some(q) => text::str_is_nocase(q, "auth-int"),
        None => false,
    };
    let mut s = text::owned(method);
    s.append(":");
    s.append(uri);
    if integrity {
        s.append(":");
        let h = md5_hex(body);
        s.append(h.as_str());
    }
    let ha2 = md5_of_text(&s);
    let mut s = ha1;
    s.append(":");
    s.append(nonce);
    s.append(":");
    if let Some(q) = qop {
        if !q.is_empty() {
            s.append(
                match nc {
                    Some(n) => n,
                    None => "00000001",
                },
            );
            s.append(":");
            s.append(str_or_empty(cnonce));
            s.append(":");
            s.append(q);
            s.append(":");
        }
    }
    s.append(ha2.as_str());
    md5_of_text(&s)
}

/// The first quality of protection of a list that is plain authentication.
pub open spec fn plain_qop(parts: Seq<Seq<char>>) -> Option<Seq<char>>
    decreases parts.len(),
{
    if parts.len() == 0 {
        None
    } else if text::eq_nocase(text::trim(parts[0]), "auth"@) {
        Some(text::trim(parts[0]))
    } else {
        plain_qop(parts.skip(1))
    }
}

pub open spec fn chosen_qop(offer: Option<Seq<char>>) -> Option<Seq<char>> {
    match offer {
        Some(q) => plain_qop(text::split(q, ',')),
        None => None,
    }
}

fn choose_qop(offer: &Option<String>) -> (r: Option<String>)
    ensures
        text::opt_text(r) == chosen_qop(text::opt_text(*offer)),
{
    match offer {
        None => None,
        Some(q) => {
            let c = text::chars_of(q.as_str());
            let parts = text::split_at_char(c.as_slice(), ',');
            let ghost all = text::slices(parts@);
            let mut i: usize = 0;
            assert(all.skip(0) =~= all);
            while i < parts.len()
                invariant
                    i <= parts@.len(),
                    all == text::slices(parts@),
                    chosen_qop(text::opt_text(*offer)) == plain_qop(all),
                    plain_qop(all) == plain_qop(all.skip(i as int)),
                decreases parts@.len() - i,
            {
                assert(all.skip(i as int).skip(1) =~= all.skip(i + 1));
                assert(all.skip(i as int)[0] == parts@[i as int]@);
                let t = text::trimmed(parts[i]);
                if text::is_nocase(t, "auth") {
                    return Some(text::string_of(t));
                }
                i += 1;
            }
            None
        },
    }
}

/// The answer to a challenge, with a client nonce that is used where the challenge asks for one.
pub open spec fn answered(
    c: Posed,
    username: Seq<char>,
    password: Seq<char>,
    method: Seq<char>,
    uri: Seq<char>,
    body: Seq<u8>,
    nc_value: nat,
    cnonce: Seq<char>,
) -> Shown {
    let qop = chosen_qop(c.qop);
    let cn = if qop.is_some() {
        Some(cnonce)
    } else {
        None
    };
    let nc = if qop.is_some() {
        Some(text::hex_fixed(nc_value, 8))
    } else {
        None
    };
    Shown {
        username,
        realm: c.realm,
        nonce: c.nonce,
        uri,
        response: response_of(
            username,
            password,
            c.realm,
            c.nonce,
            method,
            uri,
            qop,
            cn,
            nc,
            c.algorithm,
            body,
        ),
        algorithm: c.algorithm,
        cnonce: cn,
        nc,
        qop,
        opaque: c.opaque,
    }
}

pub(crate) fn push_hex_fixed(out: &mut String, n: u32, w: usize)
    ensures
        final(out)@ == old(out)@ + text::hex_fixed(n as nat, w as nat),
    decreases w,
{
    if w > 0 {
        push_hex_fixed(out, n / 16, w - 1);
        out.push(text::hex_char_of((n % 16) as u8));
    }
    assert(out@ =~= old(out)@ + text::hex_fixed(n as nat, w as nat));
}

/// Client side: answer a challenge with a given client nonce.
pub fn answer_with(
    challenge: &Challenge,
    username: &str,
    password: &str,
    method: &str,
    uri: &str,
    body: &[u8],
    nc_value: u32,
    cnonce: &str,
) -> (r: Credentials)
    ensures
        r@ == answered(
            challenge@,
            username@,
            password@,
            method@,
            uri@,
            body@,
            nc_value as nat,
            cnonce@,
        ),
{
    let qop = choose_qop(&challenge.qop);
    let (cn, nc) = if qop.is_some() {
        let mut nc = String::new();
        push_hex_fixed(&mut nc, nc_value, 8);
        assert(nc@ =~= text::hex_fixed(nc_value as nat, 8));
        (Some(text::owned(cnonce)), Some(nc))
    } else {
        (None, None)
    };
    let response = digest_response(
        username,
        password,
        challenge.realm.as_str(),
        challenge.nonce.as_str(),
        method,
        uri,
        as_str(&qop),
        as_str(&cn),
        as_str(&nc),
        as_str(&challenge.algorithm),
        body,
    );
    Credentials {
        username: text::owned(username),
        realm: challenge.realm.clone(),
        nonce: challenge.nonce.clone(),
        uri: text::owned(uri),
        response,
        algorithm: text::copy_option(&challenge.algorithm),
        cnonce: cn,
        nc,
        qop,
        opaque: text::copy_option(&challenge.opaque),
    }
}

/// The credentials answer a challenge with some client nonce of eight random bytes.
pub open spec fn is_answer(
    r: Shown,
    c: Posed,
    username: Seq<char>,
    password: Seq<char>,
    method: Seq<char>,
    uri: Seq<char>,
    body: Seq<u8>,
    nc_value: nat,
) -> bool {
    exists|cn: Seq<char>|
        is_hex_text(cn, 8) && r == #[trigger] answered(
            c,
            username,
            password,
            method,
            uri,
            body,
            nc_value,
            cn,
        )
}

/// Client side: answer a challenge.
pub fn answer(
    challenge: &Challenge,
    username: &str,
    password: &str,
    method: &str,
    uri: &str,
    body: &[u8],
    nc_value: u32,
) -> (r: Credentials)
    ensures
        is_answer(
            r@,
            challenge@,
            username@,
            password@,
            method@,
            uri@,
            body@,
            nc_value as nat,
        ),
{
    let cnonce = random_hex(8);
    answer_with(challenge, username, password, method, uri, body, nc_value, cnonce.as_str())
}

/// The credentials show knowledge of the password for a method and a body.
pub open spec fn verifies(c: Shown, password: Seq<char>, method: Seq<char>, body: Seq<u8>) -> bool {
    c.response == response_of(
        c.username,
        password,
        c.realm,
        c.nonce,
        method,
        c.uri,
        c.qop,
        c.cnonce,
        c.nc,
        c.algorithm,
        body,
    )
}

/// Server side: verify credentials sent by a user agent.
pub fn verify(creds: &Credentials, password: &str, method: &str, body: &[u8]) -> (r: bool)
    ensures
        r == verifies(creds@, password@, method@, body@),
{
    let expected = digest_response(
        creds.username.as_str(),
        password,
        creds.realm.as_str(),
        creds.nonce.as_str(),
        method,
        creds.uri.as_str(),
        as_str(&creds.qop),
        as_str(&creds.cnonce),
        as_str(&creds.nc),
        as_str(&creds.algorithm),
        body,
    );
    constant_time_eq(expected.as_str(), creds.response.as_str())
}

/// Answering a challenge verifies under the same password, method and body, whatever the client
/// nonce.
pub proof fn law_an_answer_verifies(
    c: Posed,
    username: Seq<char>,
    password: Seq<char>,
    method: Seq<char>,
    uri: Seq<char>,
    body: Seq<u8>,
    nc_value: nat,
    cnonce: Seq<char>,
)
    ensures
        verifies(
            answered(c, username, password, method, uri, body, nc_value, cnonce),
            password,
            method,
            body,
        ),
{
}

// ------------------------------------------------------------------ nonces

/// A nonce: the time it was issued and a digest that binds it to a secret.
pub open spec fn nonce_text(ts: int, secret: Seq<char>) -> Seq<char> {
    text::dec_int(ts) + ":"@ + md5_text(encode_utf8(text::dec_int(ts) + ":"@ + secret))
}

/// A nonce that was issued under the secret, not in the future and at most `max_age` seconds ago.
pub open spec fn nonce_valid(nonce: Seq<char>, secret: Seq<char>, max_age: int, now: int) -> bool {
    match text::split_once(nonce, ':') {
        None => false,
        Some((ts, digest)) => match text::signed_number(ts) {
            None => false,
            Some(t) => digest == md5_text(encode_utf8(text::dec_int(t) + ":"@ + secret)) && 0 <= now
                - t <= max_age,
        },
    }
}

/// Server side: a nonce issuer with a simple validity window.
#[derive(Debug)]
pub struct NonceFactory {
    secret: String,
}

impl NonceFactory {
    /// The secret of the issuer.
    pub closed spec fn secret(&self) -> Seq<char> {
        self.secret@
    }

    pub fn new() -> (r: Self)
        ensures
            is_hex_text(r.secret(), 16),
    {
        Self { secret: random_hex(16) }
    }

    fn bound(&self, ts: i64) -> (r: String)
        ensures
            r@ == md5_text(encode_utf8(text::dec_int(ts as int) + ":"@ + self.secret())),
    {
        let mut s = text::decimal_i64(ts);
        s.append(":");
        s.append(self.secret.as_str());
        md5_of_text(&s)
    }

    /// The nonce of a given second.
    pub fn issue_at(&self, ts: i64) -> (r: String)
        ensures
            r@ == nonce_text(ts as int, self.secret()),
    {
        let mut out = text::decimal_i64(ts);
        out.append(":");
        let digest = self.bound(ts);
        out.append(digest.as_str());
        out
    }

    pub fn issue(&self) -> (r: String)
        ensures
            exists|ts: i64| r@ == #[trigger] nonce_text(ts as int, self.secret()),
    {
        let now = unix_now();
        self.issue_at(now)
    }

    /// Whether a nonce is valid at a given second.
    pub fn is_valid_at(&self, nonce: &str, max_age_secs: i64, now: i64) -> (r: bool)
        ensures
            r == nonce_valid(nonce@, self.secret(), max_age_secs as int, now as int),
    {
        let c = text::chars_of(nonce);
        match text::cut(c.as_slice(), ':') {
            None => false,
            Some((ts, digest)) => match text::parse_i64(ts) {
                None => false,
                Some(t) => {
                    let expected = self.bound(t);
                    if !text::is(digest, expected.as_str()) {
                        return false;
                    }
                    let age: i128 = now as i128 - t as i128;
                    0 <= age && age <= max_age_secs as i128
                },
            },
        }
    }

    pub fn is_valid(&self, nonce: &str, max_age_secs: i64) -> (r: bool)
        ensures
            exists|now: i64|
                r == #[trigger] nonce_valid(
                    nonce@,
                    self.secret(),
                    max_age_secs as int,
                    now as int,
                ),
    {
        let now = unix_now();
        self.is_valid_at(nonce, max_age_secs, now)
    }
}

impl Default for NonceFactory {
    fn default() -> (r: Self)
        ensures
            is_hex_text(r.secret(), 16),
    {
        Self::new()
    }
}

proof fn lemma_dec_int(ts: int)
    requires
        -0x8000_0000_0000_0000 <= ts <= 0x7fff_ffff_ffff_ffff,
    ensures
        text::signed_number(text::dec_int(ts)) == Some(ts),
        forall|i: int| 0 <= i < text::dec_int(ts).len() ==> text::dec_int(ts)[i] != ':',
{
    let n: nat = if ts < 0 {
        (-ts) as nat
    } else {
        ts as nat
    };
    let d = text::dec(n);
    text::lemma_dec_reads_back(n);
    let t = text::dec_int(ts);
    if ts < 0 {
        assert(t.skip(1) =~= d);
        assert forall|i: int| 0 <= i < t.len() implies t[i] != ':' by {
            if i > 0 {
                assert(text::is_digit(d[i - 1]));
            }
        }
    } else {
        assert(text::is_digit(d[0]));
        assert forall|i: int| 0 <= i < t.len() implies t[i] != ':' by {
            assert(text::is_digit(d[i]));
        }
    }
}

/// A nonce is valid exactly from the second it was issued to `max_age` seconds later.
pub proof fn law_an_issued_nonce_is_valid_for_its_time(
    ts: i64,
    secret: Seq<char>,
    max_age: int,
    now: int,
)
    ensures
        nonce_valid(nonce_text(ts as int, secret), secret, max_age, now) == (0 <= now - ts
            <= max_age),
{
    let t = text::dec_int(ts as int);
    let digest = md5_text(encode_utf8(t + ":"@ + secret));
    let nonce = nonce_text(ts as int, secret);
    lemma_dec_int(ts as int);
    reveal_strlit(":");
    assert(nonce == t + ":"@ + digest);
    text::lemma_find_unique(nonce, ':', t.len() as int);
    assert(nonce.take(t.len() as int) =~= t);
    assert(nonce.skip(t.len() as int + 1) =~= digest);
}

} // verus!
