//! A small SIP message parser and serialiser.
//!
//! Only the subset needed by the gateway is modelled: REGISTER, INVITE, ACK, CANCEL, BYE, OPTIONS,
//! INFO and MESSAGE over UDP.
use vstd::prelude::*;
use vstd::utf8::*;

use super::uri;
use super::uri::{NameAddr, Uri};
use crate::text;

verus! {

// ------------------------------------------------------------------ methods

#[derive(Debug, Clone, Copy, PartialEq, Eq, Hash, Structural)]
pub enum Method {
    Invite,
    Ack,
    Bye,
    Cancel,
    Register,
    Options,
    Info,
    Message,
    Notify,
    Subscribe,
    Update,
    Prack,
    Refer,
}

pub open spec fn method_text(m: Method) -> Seq<char> {
    match m {
        Method::Invite => "INVITE"@,
        Method::Ack => "ACK"@,
        Method::Bye => "BYE"@,
        Method::Cancel => "CANCEL"@,
        Method::Register => "REGISTER"@,
        Method::Options => "OPTIONS"@,
        Method::Info => "INFO"@,
        Method::Message => "MESSAGE"@,
        Method::Notify => "NOTIFY"@,
        Method::Subscribe => "SUBSCRIBE"@,
        Method::Update => "UPDATE"@,
        Method::Prack => "PRACK"@,
        Method::Refer => "REFER"@,
    }
}

/// The method a word names, up to case.
pub open spec fn method_of(s: Seq<char>) -> Option<Method> {
    let u = text::upper(s);
    if u == "INVITE"@ {
        Some(Method::Invite)
    } else if u == "ACK"@ {
        Some(Method::Ack)
    } else if u == "BYE"@ {
        Some(Method::Bye)
    } else if u == "CANCEL"@ {
        Some(Method::Cancel)
    } else if u == "REGISTER"@ {
        Some(Method::Register)
    } else if u == "OPTIONS"@ {
        Some(Method::Options)
    } else if u == "INFO"@ {
        Some(Method::Info)
    } else if u == "MESSAGE"@ {
        Some(Method::Message)
    } else if u == "NOTIFY"@ {
        Some(Method::Notify)
    } else if u == "SUBSCRIBE"@ {
        Some(Method::Subscribe)
    } else if u == "UPDATE"@ {
        Some(Method::Update)
    } else if u == "PRACK"@ {
        Some(Method::Prack)
    } else if u == "REFER"@ {
        Some(Method::Refer)
    } else {
        None
    }
}

impl Method {
    pub fn as_str(self) -> (r: &'static str)
        ensures
            r@ == method_text(self),
    {
        match self {
            Method::Invite => "INVITE",
            Method::Ack => "ACK",
            Method::Bye => "BYE",
            Method::Cancel => "CANCEL",
            Method::Register => "REGISTER",
            Method::Options => "OPTIONS",
            Method::Info => "INFO",
            Method::Message => "MESSAGE",
            Method::Notify => "NOTIFY",
            Method::Subscribe => "SUBSCRIBE",
            Method::Update => "UPDATE",
            Method::Prack => "PRACK",
            Method::Refer => "REFER",
        }
    }

    pub fn parse(s: &str) -> (r: Option<Method>)
        ensures
            r == method_of(s@),
    {
        Method::parse_chars(text::chars_of(s).as_slice())
    }

    pub(crate) fn parse_chars(s: &[char]) -> (r: Option<Method>)
        ensures
            r == method_of(s@),
    {
        let v = text::uppercase(s);
        let u = v.as_slice();
        if text::is(u, "INVITE") {
            Some(Method::Invite)
        } else if text::is(u, "ACK") {
            Some(Method::Ack)
        } else if text::is(u, "BYE") {
            Some(Method::Bye)
        } else if text::is(u, "CANCEL") {
            Some(Method::Cancel)
        } else if text::is(u, "REGISTER") {
            Some(Method::Register)
        } else if text::is(u, "OPTIONS") {
            Some(Method::Options)
        } else if text::is(u, "INFO") {
            Some(Method::Info)
        } else if text::is(u, "MESSAGE") {
            Some(Method::Message)
        } else if text::is(u, "NOTIFY") {
            Some(Method::Notify)
        } else if text::is(u, "SUBSCRIBE") {
            Some(Method::Subscribe)
        } else if text::is(u, "UPDATE") {
            Some(Method::Update)
        } else if text::is(u, "PRACK") {
            Some(Method::Prack)
        } else if text::is(u, "REFER") {
            Some(Method::Refer)
        } else {
            None
        }
    }
}

/// Every method reads back from its name.
pub proof fn law_method_round_trip(m: Method)
    ensures
        method_of(method_text(m)) == Some(m),
{
    reveal_strlit("INVITE");
    reveal_strlit("ACK");
    reveal_strlit("BYE");
    reveal_strlit("CANCEL");
    reveal_strlit("REGISTER");
    reveal_strlit("OPTIONS");
    reveal_strlit("INFO");
    reveal_strlit("MESSAGE");
    reveal_strlit("NOTIFY");
    reveal_strlit("SUBSCRIBE");
    reveal_strlit("UPDATE");
    reveal_strlit("PRACK");
    reveal_strlit("REFER");
    let t = method_text(m);
    assert(text::upper(t) =~= t);
    assert("ACK"@[0] == 'A' && "BYE"@[0] == 'B' && "INVITE"@[0] == 'I' && "CANCEL"@[0] == 'C'
        && "NOTIFY"@[0] == 'N' && "UPDATE"@[0] == 'U' && "OPTIONS"@[0] == 'O' && "MESSAGE"@[0]
        == 'M' && "PRACK"@[0] == 'P' && "REFER"@[0] == 'R');
}

// ------------------------------------------------------------------ header names

/// A header name in full and in lower case (compact forms of RFC 3261 and RFC 3428).
pub open spec fn canonical_name(name: Seq<char>) -> Seq<char> {
    let n = text::lower(text::trim(name));
    if n == "i"@ {
        "call-id"@
    } else if n == "m"@ {
        "contact"@
    } else if n == "f"@ {
        "from"@
    } else if n == "t"@ {
        "to"@
    } else if n == "v"@ {
        "via"@
    } else if n == "c"@ {
        "content-type"@
    } else if n == "l"@ {
        "content-length"@
    } else if n == "s"@ {
        "subject"@
    } else if n == "k"@ {
        "supported"@
    } else if n == "e"@ {
        "content-encoding"@
    } else if n == "o"@ {
        "event"@
    } else if n == "r"@ {
        "refer-to"@
    } else if n == "x"@ {
        "session-expires"@
    } else {
        n
    }
}

/// A lower-case name of more than one letter is in its canonical form already.
pub proof fn lemma_plain_name(name: Seq<char>)
    requires
        name.len() > 1,
        !text::is_space(name[0]),
        !text::is_space(name.last()),
        text::lower(name) =~= name,
    ensures
        canonical_name(name) == name,
{
    text::lemma_trimmed(name);
    reveal_strlit("i");
    reveal_strlit("m");
    reveal_strlit("f");
    reveal_strlit("t");
    reveal_strlit("v");
    reveal_strlit("c");
    reveal_strlit("l");
    reveal_strlit("s");
    reveal_strlit("k");
    reveal_strlit("e");
    reveal_strlit("o");
    reveal_strlit("r");
    reveal_strlit("x");
}

fn canonical_chars(name: &[char]) -> (r: String)
    ensures
        r@ == canonical_name(name@),
{
    let v = text::lowercase(text::trimmed(name));
    let n = v.as_slice();
    if text::is(n, "i") {
        text::owned("call-id")
    } else if text::is(n, "m") {
        text::owned("contact")
    } else if text::is(n, "f") {
        text::owned("from")
    } else if text::is(n, "t") {
        text::owned("to")
    } else if text::is(n, "v") {
        text::owned("via")
    } else if text::is(n, "c") {
        text::owned("content-type")
    } else if text::is(n, "l") {
        text::owned("content-length")
    } else if text::is(n, "s") {
        text::owned("subject")
    } else if text::is(n, "k") {
        text::owned("supported")
    } else if text::is(n, "e") {
        text::owned("content-encoding")
    } else if text::is(n, "o") {
        text::owned("event")
    } else if text::is(n, "r") {
        text::owned("refer-to")
    } else if text::is(n, "x") {
        text::owned("session-expires")
    } else {
        text::string_of(n)
    }
}

fn canonical(name: &str) -> (r: String)
    ensures
        r@ == canonical_name(name@),
{
    canonical_chars(text::chars_of(name).as_slice())
}

/// The upper-case form `char::to_uppercase` gives of a character outside ASCII.
pub uninterp spec fn unicode_upper(c: char) -> Seq<char>;

pub open spec fn upper_form(c: char) -> Seq<char> {
    if (c as u32) < 0x80 {
        seq![text::upper_char(c)]
    } else {
        unicode_upper(c)
    }
}

/// `char::to_uppercase`: an ASCII letter becomes its capital and any other ASCII character stays;
/// what Unicode gives for the rest is left unstated.
#[verifier::external_body]
fn upper_of(c: char) -> (r: String)
    ensures
        (c as u32) < 0x80 ==> r@ == seq![text::upper_char(c)],
        (c as u32) >= 0x80 ==> r@ == unicode_upper(c),
{
    c.to_uppercase().to_string()
}

/// The text with the first letter, and each letter behind a dash, in upper case.
pub open spec fn title_case(s: Seq<char>) -> Seq<char>
    decreases s.len(),
{
    if s.len() == 0 {
        seq![]
    } else if s.len() == 1 || s[s.len() - 2] == '-' {
        title_case(s.drop_last()) + upper_form(s.last())
    } else {
        title_case(s.drop_last()).push(s.last())
    }
}

/// A header name as it is written.
pub open spec fn pretty_name(name: Seq<char>) -> Seq<char> {
    let n = canonical_name(name);
    if n == "call-id"@ {
        "Call-ID"@
    } else if n == "cseq"@ {
        "CSeq"@
    } else if n == "www-authenticate"@ {
        "WWW-Authenticate"@
    } else if n == "mime-version"@ {
        "MIME-Version"@
    } else {
        title_case(n)
    }
}

/// Pretty (canonical) casing for wire output.
fn pretty(name: &str) -> (r: String)
    ensures
        r@ == pretty_name(name@),
{
    let canon = canonical(name);
    let v = text::chars_of(canon.as_str());
    let n = v.as_slice();
    if text::is(n, "call-id") {
        return text::owned("Call-ID");
    }
    if text::is(n, "cseq") {
        return text::owned("CSeq");
    }
    if text::is(n, "www-authenticate") {
        return text::owned("WWW-Authenticate");
    }
    if text::is(n, "mime-version") {
        return text::owned("MIME-Version");
    }
    let mut out = String::new();
    let mut i: usize = 0;
    while i < n.len()
        invariant
            i <= n@.len(),
            out@ == title_case(n@.take(i as int)),
        decreases n@.len() - i,
    {
        let ghost before = out@;
        if i == 0 || n[i - 1] == '-' {
            let u = upper_of(n[i]);
            out.append(u.as_str());
        } else {
            out.push(n[i]);
        }
        i += 1;
        proof {
            let t = n@.take(i as int);
            assert(t.drop_last() =~= n@.take(i - 1));
            assert(t.last() == n@[i - 1]);
            if i > 1 {
                assert(t[t.len() - 2] == n@[i - 2]);
            }
        }
    }
    assert(n@.take(i as int) =~= n@);
    out
}

// ------------------------------------------------------------------ headers

#[derive(Debug)]
pub struct Headers(pub Vec<(String, String)>);

/// Headers, mathematically: canonical names and values in order.
pub type Fields = Seq<(Seq<char>, Seq<char>)>;

impl View for Headers {
    type V = Fields;

    open spec fn view(&self) -> Fields {
        text::pairs(self.0@)
    }
}

/// The values of a name, in order.
pub open spec fn values_of(f: Fields, n: Seq<char>) -> Seq<Seq<char>>
    decreases f.len(),
{
    if f.len() == 0 {
        seq![]
    } else if f.last().0 == n {
        values_of(f.drop_last(), n).push(f.last().1)
    } else {
        values_of(f.drop_last(), n)
    }
}

/// The fields of other names, in order.
pub open spec fn without_name(f: Fields, n: Seq<char>) -> Fields
    decreases f.len(),
{
    if f.len() == 0 {
        seq![]
    } else if f.last().0 == n {
        without_name(f.drop_last(), n)
    } else {
        without_name(f.drop_last(), n).push(f.last())
    }
}

/// The place of the first field of a name, or the length.
pub open spec fn first_field(f: Fields, n: Seq<char>) -> int
    decreases f.len(),
{
    if f.len() == 0 || f[0].0 == n {
        0
    } else {
        1 + first_field(f.skip(1), n)
    }
}

pub open spec fn field(f: Fields, name: Seq<char>) -> Option<Seq<char>> {
    text::lookup(f, canonical_name(name))
}

pub open spec fn with_field(f: Fields, name: Seq<char>, value: Seq<char>) -> Fields {
    without_name(f, canonical_name(name)).push((canonical_name(name), value))
}

pub open spec fn added_field(f: Fields, name: Seq<char>, value: Seq<char>) -> Fields {
    f.push((canonical_name(name), value))
}

pub open spec fn replaced_field(f: Fields, name: Seq<char>, value: Seq<char>) -> Fields {
    let n = canonical_name(name);
    let i = first_field(f, n);
    if 0 <= i < f.len() {
        f.update(i, (n, value))
    } else {
        f.push((n, value))
    }
}

pub proof fn lemma_first_field(f: Fields, n: Seq<char>)
    ensures
        0 <= first_field(f, n) <= f.len(),
        first_field(f, n) < f.len() ==> f[first_field(f, n)].0 == n,
        forall|j: int| 0 <= j < first_field(f, n) ==> f[j].0 != n,
    decreases f.len(),
{
    if f.len() > 0 && f[0].0 != n {
        lemma_first_field(f.skip(1), n);
        assert forall|j: int| 0 <= j < first_field(f, n) implies f[j].0 != n by {
            if j > 0 {
                assert(f.skip(1)[j - 1] == f[j]);
            }
        }
    }
}

/// The sequence number and method of a CSeq value.
pub open spec fn cseq_of(v: Seq<char>) -> Option<(u32, Method)> {
    let w = text::words(v);
    if w.len() < 2 {
        None
    } else {
        match (text::number(w[0], 0xffff_ffff), method_of(w[1])) {
            (Some(n), Some(m)) => Some((n as u32, m)),
            _ => None,
        }
    }
}

pub open spec fn opt_party(v: Option<NameAddr>) -> Option<uri::Party> {
    match v {
        Some(n) => Some(n@),
        None => None,
    }
}

/// A field read as a name-addr.
pub open spec fn party_field(f: Fields, name: Seq<char>) -> Option<uri::Party> {
    match field(f, name) {
        Some(v) => uri::party_of(v),
        None => None,
    }
}

impl Clone for Headers {
    fn clone(&self) -> (r: Self)
        ensures
            r@ == self@,
    {
        Headers(text::copy_pairs(&self.0))
    }
}

impl Default for Headers {
    fn default() -> (r: Self)
        ensures
            r@ == Fields::empty(),
    {
        let r = Headers(Vec::new());
        assert(r@ =~= Fields::empty());
        r
    }
}

impl Headers {
    pub fn get(&self, name: &str) -> (r: Option<&str>)
        ensures
            text::opt_str(r) == field(self@, name@),
    {
        let n = canonical(name);
        text::look_up(&self.0, n.as_str())
    }

    pub fn get_all(&self, name: &str) -> (r: Vec<&str>)
        ensures
            Seq::new(r@.len(), |i: int| r@[i]@) == values_of(self@, canonical_name(name@)),
    {
        let n = canonical(name);
        let ghost all = text::pairs(self.0@);
        let mut out: Vec<&str> = Vec::new();
        let mut i: usize = 0;
        assert(Seq::new(out@.len(), |j: int| out@[j]@) =~= values_of(all.take(0), n@));
        while i < self.0.len()
            invariant
                i <= self.0@.len(),
                all == text::pairs(self.0@),
                Seq::new(out@.len(), |j: int| out@[j]@) == values_of(all.take(i as int), n@),
            decreases self.0@.len() - i,
        {
            let ghost before = out@;
            proof {
                assert(all.take(i + 1).drop_last() =~= all.take(i as int));
                assert(all.take(i + 1).last() == all[i as int]);
            }
            if text::str_is(self.0[i].0.as_str(), n.as_str()) {
                out.push(self.0[i].1.as_str());
                assert(Seq::new(out@.len(), |j: int| out@[j]@) =~= Seq::new(
                    before.len(),
                    |j: int| before[j]@,
                ).push(all[i as int].1));
            }
            i += 1;
        }
        assert(all.take(i as int) =~= all);
        out
    }

    pub fn set(&mut self, name: &str, value: &str)
        ensures
            final(self)@ == with_field(old(self)@, name@, value@),
    {
        self.remove(name);
        self.push(name, value);
    }

    pub fn push(&mut self, name: &str, value: &str)
        ensures
            final(self)@ == added_field(old(self)@, name@, value@),
    {
        let ghost before = self.0@;
        let item = (canonical(name), text::owned(value));
        self.0.push(item);
        assert(text::pairs(self.0@) =~= text::pairs(before).push((item.0@, item.1@)));
    }

    /// Replace the first occurrence in place, keeping position and any further occurrences.
    /// Required for Via: a response must carry the request's Via list unchanged apart from the
    /// topmost entry.
    pub fn replace_first(&mut self, name: &str, value: &str)
        ensures
            final(self)@ == replaced_field(old(self)@, name@, value@),
    {
        let n = canonical(name);
        let ghost all = text::pairs(self.0@);
        proof {
            lemma_first_field(all, n@);
        }
        let mut i: usize = 0;
        assert(all.skip(0) =~= all);
        while i < self.0.len()
            invariant
                i <= self.0@.len(),
                *self == *old(self),
                all == text::pairs(self.0@),
                n@ == canonical_name(name@),
                first_field(all, n@) == i + first_field(all.skip(i as int), n@),
            decreases self.0@.len() - i,
        {
            if text::str_is(self.0[i].0.as_str(), n.as_str()) {
                let ghost before = self.0@;
                let item = (n, text::owned(value));
                self.0[i] = item;
                assert(text::pairs(self.0@) =~= all.update(i as int, (item.0@, item.1@)));
                return;
            }
            assert(all.skip(i as int).skip(1) =~= all.skip(i + 1));
            i += 1;
        }
        self.push(name, value);
    }

    pub fn remove(&mut self, name: &str)
        ensures
            final(self)@ == without_name(old(self)@, canonical_name(name@)),
    {
        let n = canonical(name);
        let ghost all = text::pairs(self.0@);
        let mut out: Vec<(String, String)> = Vec::new();
        let mut i: usize = 0;
        assert(text::pairs(out@) =~= without_name(all.take(0), n@));
        while i < self.0.len()
            invariant
                i <= self.0@.len(),
                *self == *old(self),
                all == text::pairs(self.0@),
                text::pairs(out@) == without_name(all.take(i as int), n@),
            decreases self.0@.len() - i,
        {
            let ghost before = out@;
            proof {
                assert(all.take(i + 1).drop_last() =~= all.take(i as int));
                assert(all.take(i + 1).last() == all[i as int]);
            }
            if !text::str_is(self.0[i].0.as_str(), n.as_str()) {
                out.push((self.0[i].0.clone(), self.0[i].1.clone()));
                assert(text::pairs(out@) =~= text::pairs(before).push(all[i as int]));
            }
            i += 1;
        }
        assert(all.take(i as int) =~= all);
        self.0 = out;
    }

    fn party(&self, name: &str) -> (r: Option<NameAddr>)
        ensures
            opt_party(r) == party_field(self@, name@),
    {
        match self.get(name) {
            Some(v) => NameAddr::parse(v),
            None => None,
        }
    }

    pub fn from(&self) -> (r: Option<NameAddr>)
        ensures
            opt_party(r) == party_field(self@, "from"@),
    {
        self.party("from")
    }

    pub fn to(&self) -> (r: Option<NameAddr>)
        ensures
            opt_party(r) == party_field(self@, "to"@),
    {
        self.party("to")
    }

    pub fn contact(&self) -> (r: Option<NameAddr>)
        ensures
            opt_party(r) == party_field(self@, "contact"@),
    {
        self.party("contact")
    }

    pub fn call_id(&self) -> (r: Option<&str>)
        ensures
            text::opt_str(r) == field(self@, "call-id"@),
    {
        self.get("call-id")
    }

    pub fn cseq(&self) -> (r: Option<(u32, Method)>)
        ensures
            r == match field(self@, "cseq"@) {
                Some(v) => cseq_of(v),
                None => None,
            },
    {
        match self.get("cseq") {
            None => None,
            Some(raw) => {
                let c = text::chars_of(raw);
                let w = text::words_of(c.as_slice());
                let ghost ws = text::words(raw@);
                assert(text::slices(w@) == ws);
                assert(w@.len() == ws.len());
                if w.len() < 2 {
                    return None;
                }
                assert(w@[0]@ == ws[0] && w@[1]@ == ws[1]);
                match (text::parse_u32(w[0]), Method::parse_chars(w[1])) {
                    (Some(n), Some(m)) => Some((n, m)),
                    _ => None,
                }
            },
        }
    }

    pub fn top_via(&self) -> (r: Option<Via>)
        ensures
            opt_via(r) == match field(self@, "via"@) {
                Some(v) => via_of(v),
                None => None,
            },
    {
        match self.get("via") {
            Some(v) => Via::parse(v),
            None => None,
        }
    }

    pub fn content_type(&self) -> (r: Option<&str>)
        ensures
            text::opt_str(r) == field(self@, "content-type"@),
    {
        self.get("content-type")
    }
}

// ------------------------------------------------------------------ Via

#[derive(Debug)]
pub struct Via {
    /// "SIP/2.0/UDP"
    pub protocol: String,
    pub host: String,
    pub port: Option<u16>,
    pub params: Vec<(String, Option<String>)>,
}

/// A Via, mathematically.
#[verifier::ext_equal]
pub struct Hop {
    pub protocol: Seq<char>,
    pub host: Seq<char>,
    pub port: Option<u16>,
    pub params: Seq<(Seq<char>, Option<Seq<char>>)>,
}

impl View for Via {
    type V = Hop;

    open spec fn view(&self) -> Hop {
        Hop {
            protocol: self.protocol@,
            host: self.host@,
            port: self.port,
            params: uri::params_view(self.params@),
        }
    }
}

pub open spec fn opt_via(v: Option<Via>) -> Option<Hop> {
    match v {
        Some(v) => Some(v@),
        None => None,
    }
}

pub open spec fn trimmed_parts(p: Seq<Seq<char>>) -> Seq<Seq<char>> {
    Seq::new(p.len(), |i: int| text::trim(p[i]))
}

/// The first Via of a list.
pub open spec fn via_of(s: Seq<char>) -> Option<Hop> {
    let t = text::trim(s.take(text::find(s, ',')));
    let k = text::find_space(t);
    if k >= t.len() {
        None
    } else {
        let (hostport, params) = uri::before_and_after(text::trim(t.skip(k + 1)), ';');
        let (host, port) = uri::host_port_of(hostport);
        Some(
            Hop {
                protocol: t.take(k),
                host,
                port,
                params: match params {
                    Some(p) => uri::params_of(trimmed_parts(text::split(p, ';'))),
                    None => seq![],
                },
            },
        )
    }
}

pub open spec fn via_text(v: Hop) -> Seq<char> {
    v.protocol + " "@ + v.host + uri::port_text(v.port) + uri::params_text(v.params)
}

fn trim_parts<'a>(parts: &Vec<&'a [char]>) -> (r: Vec<&'a [char]>)
    ensures
        text::slices(r@) == trimmed_parts(text::slices(parts@)),
{
    let mut out: Vec<&'a [char]> = Vec::new();
    let mut i: usize = 0;
    let ghost all = trimmed_parts(text::slices(parts@));
    assert(text::slices(out@) =~= all.take(0));
    while i < parts.len()
        invariant
            i <= parts@.len(),
            all == trimmed_parts(text::slices(parts@)),
            text::slices(out@) == all.take(i as int),
        decreases parts@.len() - i,
    {
        let ghost before = out@;
        let t = text::trimmed(parts[i]);
        out.push(t);
        i += 1;
        proof {
            assert(text::slices(out@) =~= text::slices(before).push(t@));
            assert(text::slices(out@) =~= all.take(i as int));
        }
    }
    assert(all.take(i as int) =~= all);
    out
}

impl Via {
    pub fn parse(s: &str) -> (r: Option<Via>)
        ensures
            opt_via(r) == via_of(s@),
    {
        // Only the first value of a comma separated list matters for us.
        let c = text::chars_of(s);
        let n = text::index_of(c.as_slice(), ',');
        let t = text::trimmed(text::take(c.as_slice(), n));
        let k = text::space_index(t);
        if k >= t.len() {
            return None;
        }
        let rest = text::trimmed(text::skip(t, k + 1));
        let (hostport, params) = match text::cut(rest, ';') {
            Some((h, p)) => (h, Some(p)),
            None => (rest, None),
        };
        let (host, port) = uri::split_host_port_chars(hostport);
        let params = match params {
            Some(p) => uri::read_params(&trim_parts(&text::split_at_char(p, ';'))),
            None => {
                let none: Vec<(String, Option<String>)> = Vec::new();
                assert(uri::params_view(none@) =~= Seq::<(Seq<char>, Option<Seq<char>>)>::empty());
                none
            },
        };
        Some(Via { protocol: text::string_of(text::take(t, k)), host, port, params })
    }

    pub fn param(&self, name: &str) -> (r: Option<&str>)
        ensures
            text::opt_str(r) == uri::param_value(self@.params, name@),
    {
        match uri::lookup_param(&self.params, name) {
            Some(v) => v,
            None => None,
        }
    }

    pub fn branch(&self) -> (r: Option<&str>)
        ensures
            text::opt_str(r) == uri::param_value(self@.params, "branch"@),
    {
        self.param("branch")
    }

    pub fn has_param(&self, name: &str) -> (r: bool)
        ensures
            r == uri::find_param(self@.params, name@).is_some(),
    {
        uri::lookup_param(&self.params, name).is_some()
    }

    pub fn set_param(&mut self, name: &str, value: Option<&str>)
        ensures
            final(self)@ == (Hop {
                params: uri::without_param(old(self)@.params, name@).push(
                    (name@, text::opt_str(value)),
                ),
                ..old(self)@
            }),
    {
        uri::replace_param(&mut self.params, name, value);
    }

    /// The Via as it is written.
    pub fn to_string(&self) -> (r: String)
        ensures
            r@ == via_text(self@),
    {
        let mut out = self.protocol.clone();
        out.append(" ");
        out.append(self.host.as_str());
        let ghost o1 = out@;
        if let Some(p) = self.port {
            out.append(":");
            text::push_dec(&mut out, p as u64);
        }
        assert(out@ =~= o1 + uri::port_text(self@.port));
        uri::push_params(&mut out, &self.params);
        out
    }
}

// ------------------------------------------------------------------ messages

#[derive(Debug)]
pub struct Request {
    pub method: Method,
    pub uri: Uri,
    pub headers: Headers,
    pub body: Vec<u8>,
}

#[derive(Debug)]
pub struct Response {
    pub code: u16,
    pub reason: String,
    pub headers: Headers,
    pub body: Vec<u8>,
}

#[derive(Debug)]
pub enum Message {
    Request(Request),
    Response(Response),
}

/// A request, mathematically.
#[verifier::ext_equal]
pub struct Asked {
    pub method: Method,
    pub uri: uri::Address,
    pub headers: Fields,
    pub body: Seq<u8>,
}

/// A response, mathematically.
#[verifier::ext_equal]
pub struct Answered {
    pub code: u16,
    pub reason: Seq<char>,
    pub headers: Fields,
    pub body: Seq<u8>,
}

/// A message, mathematically.
pub enum Said {
    Request(Asked),
    Response(Answered),
}

impl View for Request {
    type V = Asked;

    open spec fn view(&self) -> Asked {
        Asked { method: self.method, uri: self.uri@, headers: self.headers@, body: self.body@ }
    }
}

impl View for Response {
    type V = Answered;

    open spec fn view(&self) -> Answered {
        Answered {
            code: self.code,
            reason: self.reason@,
            headers: self.headers@,
            body: self.body@,
        }
    }
}

impl View for Message {
    type V = Said;

    open spec fn view(&self) -> Said {
        match *self {
            Message::Request(r) => Said::Request(r@),
            Message::Response(r) => Said::Response(r@),
        }
    }
}

impl Clone for Request {
    fn clone(&self) -> (r: Self)
        ensures
            r@ == self@,
    {
        Request {
            method: self.method,
            uri: self.uri.clone(),
            headers: self.headers.clone(),
            body: vstd::slice::slice_to_vec(self.body.as_slice()),
        }
    }
}

impl Clone for Response {
    fn clone(&self) -> (r: Self)
        ensures
            r@ == self@,
    {
        Response {
            code: self.code,
            reason: self.reason.clone(),
            headers: self.headers.clone(),
            body: vstd::slice::slice_to_vec(self.body.as_slice()),
        }
    }
}

/// `std::str::from_utf8` followed by `to_owned`: the text of valid UTF-8, nothing otherwise.
#[verifier::external_body]
fn utf8_text(b: &[u8]) -> (r: Option<String>)
    ensures
        match r {
            Some(t) => valid_utf8(b@) && t@ == decode_utf8(b@),
            None => !valid_utf8(b@),
        },
{
    std::str::from_utf8(b).ok().map(|s| s.to_owned())
}

/// The first place where `needle` stands in `s`, or -1.
pub open spec fn find_bytes(s: Seq<u8>, needle: Seq<u8>) -> int
    decreases s.len(),
{
    if s.len() < needle.len() {
        -1
    } else if s.take(needle.len() as int) == needle {
        0
    } else if s.len() == 0 {
        -1
    } else {
        let k = find_bytes(s.skip(1), needle);
        if k < 0 {
            -1
        } else {
            k + 1
        }
    }
}

fn same_bytes_at(s: &[u8], i: usize, needle: &[u8]) -> (r: bool)
    requires
        i + needle@.len() <= s@.len(),
    ensures
        r == (s@.subrange(i as int, i + needle@.len() as int) == needle@),
{
    let mut j: usize = 0;
    let total = s.len();
    while j < needle.len()
        invariant
            j <= needle@.len(),
            i + needle@.len() <= s@.len(),
            total == s@.len(),
            forall|k: int| 0 <= k < j ==> s@[i + k] == needle@[k],
        decreases needle@.len() - j,
    {
        if s[i + j] != needle[j] {
            assert(s@.subrange(i as int, i + needle@.len() as int)[j as int] != needle@[j as int]);
            return false;
        }
        j += 1;
    }
    assert(s@.subrange(i as int, i + needle@.len() as int) =~= needle@);
    true
}

pub(crate) fn find_sub(s: &[u8], needle: &[u8]) -> (r: Option<usize>)
    ensures
        match r {
            Some(i) => i == find_bytes(s@, needle@) && i + needle@.len() <= s@.len(),
            None => find_bytes(s@, needle@) == -1,
        },
{
    let total = s.len();
    let n = needle.len();
    if n > total {
        return None;
    }
    let mut i: usize = 0;
    assert(s@.skip(0) =~= s@);
    loop
        invariant
            n <= total,
            i <= total - n,
            total == s@.len(),
            n == needle@.len(),
            find_bytes(s@, needle@) == {
                let k = find_bytes(s@.skip(i as int), needle@);
                if k < 0 {
                    -1
                } else {
                    k + i
                }
            },
        decreases total - n - i,
    {
        let rest = vstd::slice::slice_subrange(s, i, total);
        assert(rest@ =~= s@.skip(i as int));
        assert(rest@.subrange(0, n as int) =~= rest@.take(n as int));
        if same_bytes_at(rest, 0, needle) {
            return Some(i);
        }
        assert(n == 0 ==> rest@.take(0) =~= needle@);
        assert(s@.skip(i as int).skip(1) =~= s@.skip(i + 1));
        if i == total - n {
            assert(find_bytes(rest@.skip(1), needle@) == -1);
            return None;
        }
        i += 1;
    }
}

/// Where the head ends and where the body starts, for line ends with and without a return.
pub open spec fn body_start(buf: Seq<u8>) -> (int, int) {
    let a = find_bytes(buf, seq![13u8, 10u8, 13u8, 10u8]);
    let b = find_bytes(buf, seq![10u8, 10u8]);
    if a >= 0 {
        (a, a + 4)
    } else if b >= 0 {
        (b, b + 2)
    } else {
        (buf.len() as int, buf.len() as int)
    }
}

fn find_body_start(buf: &[u8]) -> (r: (usize, usize))
    ensures
        (r.0 as int, r.1 as int) == body_start(buf@),
        r.0 <= r.1 <= buf@.len(),
{
    let crlf: [u8; 4] = [13, 10, 13, 10];
    let lf: [u8; 2] = [10, 10];
    let total = buf.len();
    assert(crlf@ =~= seq![13u8, 10u8, 13u8, 10u8]);
    assert(lf@ =~= seq![10u8, 10u8]);
    if let Some(p) = find_sub(buf, crlf.as_slice()) {
        assert(p + 4 <= total);
        return (p, p + 4);
    }
    if let Some(p) = find_sub(buf, lf.as_slice()) {
        assert(p + 2 <= total);
        return (p, p + 2);
    }
    (total, total)
}

/// The lines of a head, each without its line end.
pub open spec fn raw_lines(head: Seq<char>) -> Seq<Seq<char>> {
    let p = text::split(head, '\n');
    Seq::new(
        p.len(),
        |i: int|
            if i < p.len() - 1 {
                text::without_return(p[i])
            } else {
                p[i]
            },
    )
}

/// The lines with each continuation, which starts with white space, joined to the line before it.
pub open spec fn unfolded(lines: Seq<Seq<char>>) -> Seq<Seq<char>>
    decreases lines.len(),
{
    if lines.len() == 0 {
        seq![]
    } else {
        let before = unfolded(lines.drop_last());
        let l = lines.last();
        if before.len() > 0 && l.len() > 0 && (l[0] == ' ' || l[0] == '\t') {
            before.drop_last().push(before.last() + seq![' '] + text::trim_start(l))
        } else {
            before.push(l)
        }
    }
}

pub open spec fn non_empty(lines: Seq<Seq<char>>) -> Seq<Seq<char>>
    decreases lines.len(),
{
    if lines.len() == 0 {
        seq![]
    } else if lines.last().len() == 0 {
        non_empty(lines.drop_last())
    } else {
        non_empty(lines.drop_last()).push(lines.last())
    }
}

/// The fields of header lines; a line without a colon is left out.
pub open spec fn fields_of(lines: Seq<Seq<char>>) -> Fields
    decreases lines.len(),
{
    if lines.len() == 0 {
        seq![]
    } else {
        match text::split_once(lines.last(), ':') {
            Some((k, v)) => fields_of(lines.drop_last()).push((canonical_name(k), text::trim(v))),
            None => fields_of(lines.drop_last()),
        }
    }
}

/// The body cut to its declared length, where that is not more than there is.
pub open spec fn declared_body(f: Fields, body: Seq<u8>) -> Seq<u8> {
    match field(f, "content-length"@) {
        Some(v) => match text::number(text::trim(v), usize::MAX as nat) {
            Some(n) => if n <= body.len() {
                body.take(n as int)
            } else {
                body
            },
            None => body,
        },
        None => body,
    }
}

/// The code and reason of a status line.
pub open spec fn status_of(line: Seq<char>) -> Option<(u16, Seq<char>)> {
    match text::split_once(line, ' ') {
        None => None,
        Some((_, rest)) => {
            let (code, reason) = uri::before_and_after(rest, ' ');
            match uri::port_number(code) {
                Some(c) => Some(
                    (
                        c,
                        match reason {
                            Some(r) => r,
                            None => seq![],
                        },
                    ),
                ),
                None => None,
            }
        },
    }
}

/// The method and target of a request line.
pub open spec fn request_line_of(line: Seq<char>) -> Option<(Method, uri::Address)> {
    let w = text::words(line);
    if w.len() < 2 {
        None
    } else {
        match (method_of(w[0]), uri::uri_of(w[1])) {
            (Some(m), Some(u)) => Some((m, u)),
            _ => None,
        }
    }
}

/// The lines of a head that count.
pub open spec fn head_lines(head: Seq<char>) -> Seq<Seq<char>> {
    non_empty(unfolded(raw_lines(head)))
}

/// The message bytes stand for.
pub open spec fn message_of(buf: Seq<u8>) -> Option<Said> {
    let (end, start) = body_start(buf);
    let head = buf.take(end);
    if !valid_utf8(head) {
        None
    } else {
        let lines = head_lines(decode_utf8(head));
        if lines.len() == 0 {
            None
        } else {
            let headers = fields_of(lines.skip(1));
            let body = declared_body(headers, buf.skip(start));
            if text::has_prefix(lines[0], "SIP/"@) {
                match status_of(lines[0]) {
                    Some((code, reason)) => Some(
                        Said::Response(Answered { code, reason, headers, body }),
                    ),
                    None => None,
                }
            } else {
                match request_line_of(lines[0]) {
                    Some((method, uri)) => Some(Said::Request(Asked { method, uri, headers, body })),
                    None => None,
                }
            }
        }
    }
}

/// The texts of a list of lines.
pub open spec fn line_views(v: Seq<Vec<char>>) -> Seq<Seq<char>> {
    Seq::new(v.len(), |i: int| v[i]@)
}

/// Normalise line ends and unfold continuation lines (leading white space).
fn unfold(head: &[char]) -> (r: Vec<Vec<char>>)
    ensures
        line_views(r@) == unfolded(raw_lines(head@)),
{
    let parts = text::split_at_char(head, '\n');
    let ghost raw = raw_lines(head@);
    let n = parts.len();
    let mut out: Vec<Vec<char>> = Vec::new();
    let mut i: usize = 0;
    assert(line_views(out@) =~= unfolded(raw.take(0)));
    while i < n
        invariant
            i <= n,
            n == parts@.len(),
            text::slices(parts@) == text::split(head@, '\n'),
            raw == raw_lines(head@),
            line_views(out@) == unfolded(raw.take(i as int)),
        decreases n - i,
    {
        let mut line: &[char] = parts[i];
        assert(line@ == text::split(head@, '\n')[i as int]);
        if i < n - 1 && line.len() > 0 && line[line.len() - 1] == '\r' {
            let shorter = text::take(line, line.len() - 1);
            assert(shorter@ =~= line@.drop_last());
            line = shorter;
        }
        assert(line@ == raw[i as int]);
        let ghost before = out@;
        proof {
            assert(raw.take(i + 1).drop_last() =~= raw.take(i as int));
            assert(raw.take(i + 1).last() == line@);
        }
        if out.len() > 0 && line.len() > 0 && (line[0] == ' ' || line[0] == '\t') {
            let k = out.len() - 1;
            let mut whole = vstd::slice::slice_to_vec(out[k].as_slice());
            whole.push(' ');
            append_chars(&mut whole, text::trimmed_start(line));
            assert(whole@ =~= before.last()@ + seq![' '] + text::trim_start(line@));
            out[k] = whole;
            proof {
                assert(line_views(before).len() > 0);
                assert(line_views(before).last() == before.last()@);
                assert(line_views(out@) =~= line_views(before).drop_last().push(whole@));
            }
        } else {
            let whole = vstd::slice::slice_to_vec(line);
            out.push(whole);
            assert(line_views(out@) =~= line_views(before).push(line@));
        }
        i += 1;
    }
    assert(raw.take(i as int) =~= raw);
    out
}

fn append_chars(out: &mut Vec<char>, s: &[char])
    ensures
        final(out)@ == old(out)@ + s@,
{
    out.extend_from_slice(s);
    assert(out@ =~= old(out)@ + s@);
}

fn drop_empty(lines: Vec<Vec<char>>) -> (r: Vec<Vec<char>>)
    ensures
        line_views(r@) == non_empty(line_views(lines@)),
{
    let ghost all = line_views(lines@);
    let mut out: Vec<Vec<char>> = Vec::new();
    let mut i: usize = 0;
    assert(line_views(out@) =~= non_empty(all.take(0)));
    while i < lines.len()
        invariant
            i <= lines@.len(),
            all == line_views(lines@),
            line_views(out@) == non_empty(all.take(i as int)),
        decreases lines@.len() - i,
    {
        let ghost before = out@;
        proof {
            assert(all.take(i + 1).drop_last() =~= all.take(i as int));
            assert(all.take(i + 1).last() == all[i as int]);
        }
        if lines[i].len() > 0 {
            out.push(vstd::slice::slice_to_vec(lines[i].as_slice()));
            assert(line_views(out@) =~= line_views(before).push(all[i as int]));
        }
        i += 1;
    }
    assert(all.take(i as int) =~= all);
    out
}

/// The fields of the lines behind the first.
fn read_fields(lines: &Vec<Vec<char>>) -> (r: Headers)
    requires
        lines@.len() > 0,
    ensures
        r@ == fields_of(line_views(lines@).skip(1)),
{
    let ghost all = line_views(lines@).skip(1);
    let mut out: Vec<(String, String)> = Vec::new();
    let mut i: usize = 1;
    assert(text::pairs(out@) =~= fields_of(all.take(0)));
    while i < lines.len()
        invariant
            1 <= i <= lines@.len(),
            all == line_views(lines@).skip(1),
            text::pairs(out@) == fields_of(all.take(i - 1)),
        decreases lines@.len() - i,
    {
        let ghost before = out@;
        proof {
            assert(all.take(i as int).drop_last() =~= all.take(i - 1));
            assert(all.take(i as int).last() == lines@[i as int]@);
        }
        if let Some((k, v)) = text::cut(lines[i].as_slice(), ':') {
            let item = (canonical_chars(k), text::string_of(text::trimmed(v)));
            out.push(item);
            assert(text::pairs(out@) =~= text::pairs(before).push((item.0@, item.1@)));
        }
        i += 1;
    }
    assert(all.take(i - 1) =~= all);
    Headers(out)
}

fn cut_body(headers: &Headers, body: &[u8]) -> (r: Vec<u8>)
    ensures
        r@ == declared_body(headers@, body@),
{
    // UDP datagrams may carry padding, and some user agents under-report.
    match headers.get("content-length") {
        Some(v) => {
            let c = text::chars_of(v);
            match text::parse_usize(text::trimmed(c.as_slice())) {
                Some(n) => if n <= body.len() {
                    let cut = vstd::slice::slice_subrange(body, 0, n);
                    assert(cut@ =~= body@.take(n as int));
                    vstd::slice::slice_to_vec(cut)
                } else {
                    vstd::slice::slice_to_vec(body)
                },
                None => vstd::slice::slice_to_vec(body),
            }
        },
        None => vstd::slice::slice_to_vec(body),
    }
}

fn read_status(line: &[char]) -> (r: Option<(u16, String)>)
    ensures
        match r {
            Some((c, t)) => status_of(line@) == Some((c, t@)),
            None => status_of(line@).is_none(),
        },
{
    match text::cut(line, ' ') {
        None => None,
        Some((_, rest)) => match text::cut(rest, ' ') {
            Some((code, reason)) => match text::parse_u16(code) {
                Some(c) => Some((c, text::string_of(reason))),
                None => None,
            },
            None => match text::parse_u16(rest) {
                Some(c) => Some((c, String::new())),
                None => None,
            },
        },
    }
}

fn read_request_line(line: &[char]) -> (r: Option<(Method, Uri)>)
    ensures
        match r {
            Some((m, u)) => request_line_of(line@) == Some((m, u@)),
            None => request_line_of(line@).is_none(),
        },
{
    let w = text::words_of(line);
    let ghost ws = text::words(line@);
    assert(text::slices(w@) == ws);
    assert(w@.len() == ws.len());
    if w.len() < 2 {
        return None;
    }
    assert(w@[0]@ == ws[0] && w@[1]@ == ws[1]);
    match (Method::parse_chars(w[0]), Uri::parse_chars(w[1])) {
        (Some(m), Some(u)) => Some((m, u)),
        _ => None,
    }
}

impl Message {
    pub fn parse(buf: &[u8]) -> (r: Option<Message>)
        ensures
            match r {
                Some(m) => message_of(buf@) == Some(m@),
                None => message_of(buf@).is_none(),
            },
    {
        let (end, start) = find_body_start(buf);
        let head = vstd::slice::slice_subrange(buf, 0, end);
        assert(head@ =~= buf@.take(end as int));
        let head = match utf8_text(head) {
            None => {
                return None;
            },
            Some(t) => t,
        };
        let c = text::chars_of(head.as_str());
        let lines = drop_empty(unfold(c.as_slice()));
        let ghost ls = head_lines(head@);
        assert(line_views(lines@) == ls);
        assert(lines@.len() == ls.len());
        if lines.len() == 0 {
            return None;
        }
        assert(lines@[0]@ == ls[0]);
        let headers = read_fields(&lines);
        let rest = vstd::slice::slice_subrange(buf, start, buf.len());
        assert(rest@ =~= buf@.skip(start as int));
        let body = cut_body(&headers, rest);
        let first = lines[0].as_slice();
        if text::starts_with(first, "SIP/") {
            match read_status(first) {
                Some((code, reason)) => Some(
                    Message::Response(Response { code, reason, headers, body }),
                ),
                None => None,
            }
        } else {
            match read_request_line(first) {
                Some((method, uri)) => Some(
                    Message::Request(Request { method, uri, headers, body }),
                ),
                None => None,
            }
        }
    }
}

// ------------------------------------------------------------------ writing

/// Some character is an ASCII control character.
pub open spec fn has_ascii_control(s: Seq<char>) -> bool {
    exists|i: int| 0 <= i < s.len() && ((#[trigger] s[i]) < ' ' || s[i] == '\x7f')
}

pub open spec fn without_controls(s: Seq<char>) -> Seq<char>
    decreases s.len(),
{
    if s.len() == 0 {
        seq![]
    } else if text::is_control(s.last()) {
        without_controls(s.drop_last())
    } else {
        without_controls(s.drop_last()).push(s.last())
    }
}

/// A value without anything that would end its header line early.
pub open spec fn safe_value(s: Seq<char>) -> Seq<char> {
    if has_ascii_control(s) {
        without_controls(s)
    } else {
        s
    }
}

fn push_safe(out: &mut String, value: &str)
    ensures
        final(out)@ == old(out)@ + safe_value(value@),
{
    let v = text::chars_of(value);
    let s = v.as_slice();
    let mut found = false;
    let mut i: usize = 0;
    while i < s.len()
        invariant
            i <= s@.len(),
            found == exists|j: int| 0 <= j < i && ((#[trigger] s@[j]) < ' ' || s@[j] == '\x7f'),
        decreases s@.len() - i,
    {
        if s[i] < ' ' || s[i] == '\x7f' {
            assert(s@[i as int] < ' ' || s@[i as int] == '\x7f');
            found = true;
        }
        i += 1;
    }
    if !found {
        out.append(value);
        return;
    }
    let mut i: usize = 0;
    assert(out@ =~= old(out)@ + without_controls(s@.take(0)));
    while i < s.len()
        invariant
            i <= s@.len(),
            out@ == old(out)@ + without_controls(s@.take(i as int)),
        decreases s@.len() - i,
    {
        proof {
            assert(s@.take(i + 1).drop_last() =~= s@.take(i as int));
            assert(s@.take(i + 1).last() == s@[i as int]);
        }
        if !text::control(s[i]) {
            out.push(s[i]);
            assert(out@ =~= old(out)@ + without_controls(s@.take(i + 1)));
        }
        i += 1;
    }
    assert(s@.take(i as int) =~= s@);
}

/// One header line; the length of the body stands in for whatever the field says.
pub open spec fn field_line(f: (Seq<char>, Seq<char>), body_len: nat) -> Seq<char> {
    if f.0 == "content-length"@ {
        "Content-Length: "@ + text::dec(body_len) + "\r\n"@
    } else {
        pretty_name(f.0) + ": "@ + safe_value(f.1) + "\r\n"@
    }
}

pub open spec fn field_lines(f: Fields, body_len: nat) -> Seq<char>
    decreases f.len(),
{
    if f.len() == 0 {
        seq![]
    } else {
        field_lines(f.drop_last(), body_len) + field_line(f.last(), body_len)
    }
}

pub open spec fn has_name(f: Fields, n: Seq<char>) -> bool {
    exists|i: int| 0 <= i < f.len() && (#[trigger] f[i]).0 == n
}

/// The head of a message: start line, headers, the length where no header gave it, a blank line.
pub open spec fn head_text(start: Seq<char>, f: Fields, body_len: nat) -> Seq<char> {
    safe_value(start) + "\r\n"@ + field_lines(f, body_len) + (if has_name(f, "content-length"@) {
        seq![]
    } else {
        "Content-Length: "@ + text::dec(body_len) + "\r\n"@
    }) + "\r\n"@
}

pub open spec fn message_bytes(start: Seq<char>, f: Fields, body: Seq<u8>) -> Seq<u8> {
    encode_utf8(head_text(start, f, body.len())) + body
}

fn push_length(out: &mut String, n: usize)
    ensures
        final(out)@ == old(out)@ + ("Content-Length: "@ + text::dec(n as nat) + "\r\n"@),
{
    out.append("Content-Length: ");
    text::push_dec(out, n as u64);
    out.append("\r\n");
    assert(out@ =~= old(out)@ + ("Content-Length: "@ + text::dec(n as nat) + "\r\n"@));
}

fn push_field_line(out: &mut String, k: &str, v: &str, body_len: usize)
    ensures
        final(out)@ == old(out)@ + field_line((k@, v@), body_len as nat),
{
    if text::str_is(k, "content-length") {
        push_length(out, body_len);
    } else {
        let p = pretty(k);
        out.append(p.as_str());
        out.append(": ");
        push_safe(out, v);
        out.append("\r\n");
    }
    assert(out@ =~= old(out)@ + field_line((k@, v@), body_len as nat));
}

fn serialize(start_line: &str, headers: &Headers, body: &[u8]) -> (r: Vec<u8>)
    ensures
        r@ == message_bytes(start_line@, headers@, body@),
{
    let n = body.len();
    let ghost f = headers@;
    let mut head = String::new();
    push_safe(&mut head, start_line);
    assert(head@ =~= safe_value(start_line@));
    head.append("\r\n");
    let ghost h1 = head@;
    let mut wrote = false;
    let mut i: usize = 0;
    assert(head@ =~= h1 + field_lines(f.take(0), n as nat));
    while i < headers.0.len()
        invariant
            i <= headers.0@.len(),
            f == text::pairs(headers.0@),
            n == body@.len(),
            wrote == exists|j: int| 0 <= j < i && (#[trigger] f[j]).0 == "content-length"@,
            head@ == h1 + field_lines(f.take(i as int), n as nat),
        decreases headers.0@.len() - i,
    {
        let k = headers.0[i].0.as_str();
        let v = headers.0[i].1.as_str();
        assert(f[i as int] == (k@, v@));
        if text::str_is(k, "content-length") {
            wrote = true;
            assert(f[i as int].0 == "content-length"@);
        }
        push_field_line(&mut head, k, v, n);
        i += 1;
        proof {
            assert(f.take(i as int).drop_last() =~= f.take(i - 1));
            assert(f.take(i as int).last() == f[i - 1]);
            assert(head@ =~= h1 + field_lines(f.take(i as int), n as nat));
        }
    }
    assert(f.take(i as int) =~= f);
    let ghost h2 = head@;
    if !wrote {
        push_length(&mut head, n);
    } else {
        assert(h2 + Seq::<char>::empty() =~= h2);
    }
    head.append("\r\n");
    let mut out = vstd::slice::slice_to_vec(head.as_str().as_bytes());
    text::append_bytes(&mut out, body);
    out
}

/// The first line of a request.
pub open spec fn request_line(m: Method, u: uri::Address) -> Seq<char> {
    method_text(m) + " "@ + uri::uri_text(u) + " SIP/2.0"@
}

/// The first line of a response.
pub open spec fn status_line(code: u16, reason: Seq<char>) -> Seq<char> {
    "SIP/2.0 "@ + text::dec(code as nat) + " "@ + reason
}

pub open spec fn request_bytes(r: Asked) -> Seq<u8> {
    message_bytes(request_line(r.method, r.uri), r.headers, r.body)
}

pub open spec fn response_bytes(r: Answered) -> Seq<u8> {
    message_bytes(status_line(r.code, r.reason), r.headers, r.body)
}

/// Fields with a list of values of one name added.
pub open spec fn with_values(f: Fields, name: Seq<char>, values: Seq<Seq<char>>) -> Fields
    decreases values.len(),
{
    if values.len() == 0 {
        f
    } else {
        with_values(f, name, values.drop_last()).push((canonical_name(name), values.last()))
    }
}

/// A field set to a value, where there is one.
pub open spec fn with_optional(f: Fields, name: Seq<char>, value: Option<Seq<char>>) -> Fields {
    match value {
        Some(v) => with_field(f, name, v),
        None => f,
    }
}

/// The headers a response takes over from its request.
pub open spec fn reply_fields(f: Fields) -> Fields {
    let a = with_values(Fields::empty(), "via"@, values_of(f, canonical_name("via"@)));
    let b = with_values(a, "record-route"@, values_of(f, canonical_name("record-route"@)));
    let c = with_optional(b, "from"@, field(f, "from"@));
    let d = with_optional(c, "to"@, field(f, "to"@));
    let e = with_optional(d, "call-id"@, field(f, "call-id"@));
    with_optional(e, "cseq"@, field(f, "cseq"@))
}

/// A response that mirrors the mandatory headers of a request.
pub open spec fn reply_to(r: Asked, code: u16, reason: Seq<char>) -> Answered {
    Answered { code, reason, headers: reply_fields(r.headers), body: seq![] }
}

fn push_values(headers: &mut Headers, name: &str, values: &Vec<&str>)
    ensures
        final(headers)@ == with_values(
            old(headers)@,
            name@,
            Seq::new(values@.len(), |i: int| values@[i]@),
        ),
{
    let ghost all = Seq::new(values@.len(), |i: int| values@[i]@);
    let mut i: usize = 0;
    assert(all.take(0) =~= Seq::<Seq<char>>::empty());
    while i < values.len()
        invariant
            i <= values@.len(),
            all == Seq::new(values@.len(), |i: int| values@[i]@),
            headers@ == with_values(old(headers)@, name@, all.take(i as int)),
        decreases values@.len() - i,
    {
        headers.push(name, values[i]);
        i += 1;
        proof {
            assert(all.take(i as int).drop_last() =~= all.take(i - 1));
            assert(all.take(i as int).last() == all[i - 1]);
        }
    }
    assert(all.take(i as int) =~= all);
}

fn set_optional(headers: &mut Headers, name: &str, value: Option<&str>)
    ensures
        final(headers)@ == with_optional(old(headers)@, name@, text::opt_str(value)),
{
    if let Some(v) = value {
        headers.set(name, v);
    }
}

impl Request {
    pub fn new(method: Method, uri: Uri) -> (r: Self)
        ensures
            r@ == (Asked { method, uri: uri@, headers: Fields::empty(), body: seq![] }),
    {
        Self { method, uri, headers: Headers::default(), body: Vec::new() }
    }

    pub fn encode(&self) -> (r: Vec<u8>)
        ensures
            r@ == request_bytes(self@),
    {
        let mut line = text::owned(self.method.as_str());
        line.append(" ");
        let u = self.uri.to_string();
        line.append(u.as_str());
        line.append(" SIP/2.0");
        serialize(line.as_str(), &self.headers, self.body.as_slice())
    }

    pub fn body_str(&self) -> (r: String)
        ensures
            r@ == text::lossy(self@.body),
    {
        text::lossy_text(self.body.as_slice())
    }

    /// Build a response that mirrors the mandatory headers of this request.
    pub fn reply(&self, code: u16, reason: &str) -> (r: Response)
        ensures
            r@ == reply_to(self@, code, reason@),
    {
        let mut headers = Headers::default();
        push_values(&mut headers, "via", &self.headers.get_all("via"));
        push_values(&mut headers, "record-route", &self.headers.get_all("record-route"));
        set_optional(&mut headers, "from", self.headers.get("from"));
        set_optional(&mut headers, "to", self.headers.get("to"));
        set_optional(&mut headers, "call-id", self.headers.get("call-id"));
        set_optional(&mut headers, "cseq", self.headers.get("cseq"));
        Response { code, reason: text::owned(reason), headers, body: Vec::new() }
    }
}

impl Response {
    pub fn encode(&self) -> (r: Vec<u8>)
        ensures
            r@ == response_bytes(self@),
    {
        let mut line = text::owned("SIP/2.0 ");
        text::push_dec(&mut line, self.code as u64);
        line.append(" ");
        line.append(self.reason.as_str());
        serialize(line.as_str(), &self.headers, self.body.as_slice())
    }

    pub fn is_provisional(&self) -> (r: bool)
        ensures
            r == (100 <= self@.code < 200),
    {
        100 <= self.code && self.code < 200
    }

    pub fn is_success(&self) -> (r: bool)
        ensures
            r == (200 <= self@.code < 300),
    {
        200 <= self.code && self.code < 300
    }

    pub fn body_str(&self) -> (r: String)
        ensures
            r@ == text::lossy(self@.body),
    {
        text::lossy_text(self.body.as_slice())
    }
}

/// The standard phrase of a status code.
pub open spec fn phrase(code: u16) -> Seq<char> {
    match code {
        100 => "Trying"@,
        180 => "Ringing"@,
        183 => "Session Progress"@,
        200 => "OK"@,
        202 => "Accepted"@,
        400 => "Bad Request"@,
        401 => "Unauthorized"@,
        403 => "Forbidden"@,
        404 => "Not Found"@,
        405 => "Method Not Allowed"@,
        408 => "Request Timeout"@,
        415 => "Unsupported Media Type"@,
        420 => "Bad Extension"@,
        423 => "Interval Too Brief"@,
        480 => "Temporarily Unavailable"@,
        481 => "Call/Transaction Does Not Exist"@,
        486 => "Busy Here"@,
        487 => "Request Terminated"@,
        488 => "Not Acceptable Here"@,
        491 => "Request Pending"@,
        500 => "Server Internal Error"@,
        502 => "Bad Gateway"@,
        503 => "Service Unavailable"@,
        504 => "Server Time-out"@,
        600 => "Busy Everywhere"@,
        603 => "Decline"@,
        604 => "Does Not Exist Anywhere"@,
        _ => "Unknown"@,
    }
}

pub fn reason_phrase(code: u16) -> (r: &'static str)
    ensures
        r@ == phrase(code),
{
    match code {
        100 => "Trying",
        180 => "Ringing",
        183 => "Session Progress",
        200 => "OK",
        202 => "Accepted",
        400 => "Bad Request",
        401 => "Unauthorized",
        403 => "Forbidden",
        404 => "Not Found",
        405 => "Method Not Allowed",
        408 => "Request Timeout",
        415 => "Unsupported Media Type",
        420 => "Bad Extension",
        423 => "Interval Too Brief",
        480 => "Temporarily Unavailable",
        481 => "Call/Transaction Does Not Exist",
        486 => "Busy Here",
        487 => "Request Terminated",
        488 => "Not Acceptable Here",
        491 => "Request Pending",
        500 => "Server Internal Error",
        502 => "Bad Gateway",
        503 => "Service Unavailable",
        504 => "Server Time-out",
        600 => "Busy Everywhere",
        603 => "Decline",
        604 => "Does Not Exist Anywhere",
        _ => "Unknown",
    }
}

// ------------------------------------------------------------------ laws

proof fn lemma_without_controls(s: Seq<char>)
    ensures
        forall|i: int| 0 <= i < without_controls(s).len() ==> !text::is_control(
            #[trigger] without_controls(s)[i],
        ),
    decreases s.len(),
{
    if s.len() > 0 {
        let d = without_controls(s.drop_last());
        lemma_without_controls(s.drop_last());
        assert forall|i: int| 0 <= i < without_controls(s).len() implies !text::is_control(
            #[trigger] without_controls(s)[i],
        ) by {
            if i < d.len() {
                assert(!text::is_control(d[i]));
            }
        }
    }
}

/// No value that is written can end its own line: it holds no return, no line feed and no other
/// ASCII control character.
pub proof fn law_a_value_cannot_end_its_line(s: Seq<char>)
    ensures
        !has_ascii_control(safe_value(s)),
        !safe_value(s).contains('\r'),
        !safe_value(s).contains('\n'),
{
    lemma_without_controls(s);
    let v = safe_value(s);
    assert forall|i: int| 0 <= i < v.len() implies (#[trigger] v[i]) >= ' ' && v[i] != '\x7f' by {
        if has_ascii_control(s) {
            assert(!text::is_control(without_controls(s)[i]));
        } else {
            assert(!(s[i] < ' ' || s[i] == '\x7f'));
        }
    }
}

/// A value without ASCII control characters is written as it is.
pub proof fn law_a_clean_value_is_kept(s: Seq<char>)
    requires
        !has_ascii_control(s),
    ensures
        safe_value(s) == s,
{
}

proof fn lemma_lookup_push(f: Fields, n: Seq<char>, x: (Seq<char>, Seq<char>))
    ensures
        text::lookup(f.push(x), n) == match text::lookup(f, n) {
            Some(v) => Some(v),
            None => if x.0 == n {
                Some(x.1)
            } else {
                None
            },
        },
    decreases f.len(),
{
    if f.len() == 0 {
        assert(f.push(x).skip(1) =~= Fields::empty());
        assert(text::lookup(Fields::empty(), n).is_none());
    } else if f[0].0 != n {
        assert(f.push(x).skip(1) =~= f.skip(1).push(x));
        lemma_lookup_push(f.skip(1), n, x);
    }
}

proof fn lemma_lookup_without(f: Fields, n: Seq<char>, m: Seq<char>)
    ensures
        text::lookup(without_name(f, n), m) == if m == n {
            None
        } else {
            text::lookup(f, m)
        },
    decreases f.len(),
{
    if f.len() > 0 {
        let d = f.drop_last();
        lemma_lookup_without(d, n, m);
        assert(d.push(f.last()) =~= f);
        lemma_lookup_push(d, m, f.last());
        if f.last().0 != n {
            lemma_lookup_push(without_name(d, n), m, f.last());
        }
    }
}

/// After `set`, the header has the value that was set and every other header the value it had.
pub proof fn law_set_then_get(f: Fields, name: Seq<char>, value: Seq<char>, other: Seq<char>)
    ensures
        field(with_field(f, name, value), name) == Some(value),
        canonical_name(other) != canonical_name(name) ==> field(
            with_field(f, name, value),
            other,
        ) == field(f, other),
{
    let n = canonical_name(name);
    let w = without_name(f, n);
    lemma_lookup_without(f, n, n);
    lemma_lookup_push(w, n, (n, value));
    lemma_lookup_without(f, n, canonical_name(other));
    lemma_lookup_push(w, canonical_name(other), (n, value));
}

/// After `remove`, the header is gone and every other header is untouched.
pub proof fn law_remove_then_get(f: Fields, name: Seq<char>, other: Seq<char>)
    ensures
        field(without_name(f, canonical_name(name)), name).is_none(),
        canonical_name(other) != canonical_name(name) ==> field(
            without_name(f, canonical_name(name)),
            other,
        ) == field(f, other),
{
    lemma_lookup_without(f, canonical_name(name), canonical_name(name));
    lemma_lookup_without(f, canonical_name(name), canonical_name(other));
}

/// Replacing the first value keeps the number and order of the fields, and all other fields.
pub proof fn law_replace_first_keeps_the_rest(f: Fields, name: Seq<char>, value: Seq<char>)
    requires
        text::lookup(f, canonical_name(name)).is_some(),
    ensures
        replaced_field(f, name, value).len() == f.len(),
        field(replaced_field(f, name, value), name) == Some(value),
        forall|i: int|
            0 <= i < f.len() && i != first_field(f, canonical_name(name)) ==> #[trigger]
            replaced_field(f, name, value)[i] == f[i],
{
    let n = canonical_name(name);
    lemma_first_field(f, n);
    lemma_lookup_first(f, n);
    let g = replaced_field(f, name, value);
    lemma_first_field(g, n);
    lemma_lookup_first(g, n);
    let i = first_field(f, n);
    assert(g[i].0 == n);
    if first_field(g, n) < i {
        assert(g[first_field(g, n)] == f[first_field(g, n)]);
    }
}

proof fn lemma_lookup_first(f: Fields, n: Seq<char>)
    ensures
        text::lookup(f, n) == if 0 <= first_field(f, n) < f.len() {
            Some(f[first_field(f, n)].1)
        } else {
            None
        },
    decreases f.len(),
{
    if f.len() > 0 && f[0].0 != n {
        lemma_lookup_first(f.skip(1), n);
        lemma_first_field(f.skip(1), n);
    }
}

} // verus!
