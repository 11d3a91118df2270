//! What is stored of messages and calls, and under which names.
use vstd::prelude::*;

use crate::text;

verus! {

#[derive(Debug, Clone, Copy, PartialEq, Eq, Structural)]
pub enum Direction {
    Incoming,
    Outgoing,
}

impl Direction {
    pub fn as_str(self) -> (r: &'static str)
        ensures
            r@ == match self {
                Direction::Incoming => "incoming"@,
                Direction::Outgoing => "outgoing"@,
            },
    {
        match self {
            Direction::Incoming => "incoming",
            Direction::Outgoing => "outgoing",
        }
    }
}

/// A message to store.
#[derive(Debug)]
pub struct NewMessage {
    /// "sms" or "mms".
    pub kind: &'static str,
    pub direction: Direction,
    pub peer: String,
    pub own_number: Option<String>,
    pub subject: Option<String>,
    pub text: Option<String>,
    /// Network timestamp as reported by the modem or the MMSC (ISO 8601).
    pub timestamp: Option<String>,
    pub status: String,
    /// ModemManager object path or MMS transaction id; a message that has the kind, the direction
    /// and the identity of a stored one is not stored again.
    pub external_id: Option<String>,
    pub raw: Option<Vec<u8>>,
}

#[derive(Debug)]
pub struct Attachment {
    pub index: i64,
    pub content_type: String,
    pub name: Option<String>,
    pub content_id: Option<String>,
    pub size: i64,
    pub path: String,
}

#[derive(Debug)]
pub struct StoredMessage {
    pub id: i64,
    pub kind: String,
    pub direction: String,
    pub peer: String,
    pub own_number: Option<String>,
    pub subject: Option<String>,
    pub text: Option<String>,
    pub timestamp: Option<String>,
    pub received_at: String,
    pub status: String,
    pub external_id: Option<String>,
    pub attachments: Vec<Attachment>,
}

// ------------------------------------------------------------------ times

/// The text that `chrono`'s `DateTime::to_rfc3339` gives of a Unix time, with its nanoseconds, at an
/// offset of so many seconds from UTC.
pub uninterp spec fn rfc3339_text(secs: int, nanos: int, offset: int) -> Seq<char>;

/// An offset from UTC in seconds: less than a day either way.
pub open spec fn is_offset(offset: int) -> bool {
    -86_400 < offset < 86_400
}

/// A Unix time that has a calendar date: from the start of the year -262143 to the end of the year
/// 262142.
pub open spec fn has_date(secs: int) -> bool {
    -8_334_601_228_800 <= secs <= 8_210_266_876_799
}

/// The text of some point in time at some offset.
pub open spec fn is_time_text(t: Seq<char>) -> bool {
    exists|secs: int, nanos: int, offset: int|
        has_date(secs) && 0 <= nanos < 1_000_000_000 && is_offset(offset) && t
            == #[trigger] rfc3339_text(secs, nanos, offset)
}

/// `chrono`'s `Local::now().to_rfc3339()`: the text of a point in time, a date, a time and an offset.
/// That it is the present one, by the clock and the time zone of the machine, is left unstated.
#[verifier::external_body]
pub fn now_iso() -> (r: String)
    ensures
        is_time_text(r@),
        r@.len() >= 25,
{
    chrono::Local::now().to_rfc3339()
}

// ------------------------------------------------------------------ file names

/// Whether a character outside ASCII is a letter or a number.
pub uninterp spec fn unicode_alphanumeric(c: char) -> bool;

/// A letter or a number.
pub open spec fn is_alphanumeric(c: char) -> bool {
    if (c as u32) < 0x80 {
        text::is_alnum(c)
    } else {
        unicode_alphanumeric(c)
    }
}

/// `char::is_alphanumeric`: the letters and digits of ASCII; what else counts is a function of the
/// character that is left unstated.
#[verifier::external_body]
fn alphanumeric(c: char) -> (r: bool)
    ensures
        (c as u32) < 0x80 ==> r == text::is_alnum(c),
        (c as u32) >= 0x80 ==> r == unicode_alphanumeric(c),
{
    c.is_alphanumeric()
}

/// A character of a file name; anything that could mean something in a path becomes an underscore.
pub open spec fn safe_char(c: char) -> char {
    if is_alphanumeric(c) || c == '.' || c == '_' || c == '-' {
        c
    } else {
        '_'
    }
}

pub open spec fn safe_chars(s: Seq<char>) -> Seq<char> {
    s.map_values(|c: char| safe_char(c))
}

/// The extension for a media type, its parameters aside.
pub open spec fn extension(content_type: Seq<char>) -> Seq<char> {
    let t = text::trim(text::split(content_type, ';')[0]);
    if t == "text/plain"@ {
        ".txt"@
    } else if t == "text/html"@ {
        ".html"@
    } else if t == "image/jpeg"@ {
        ".jpg"@
    } else if t == "image/png"@ {
        ".png"@
    } else if t == "image/gif"@ {
        ".gif"@
    } else if t == "audio/amr"@ {
        ".amr"@
    } else if t == "video/3gpp"@ {
        ".3gp"@
    } else if t == "application/smil"@ {
        ".smil"@
    } else {
        ".bin"@
    }
}

/// A name that can be kept, made safe.
pub open spec fn kept_name(name: Option<Seq<char>>) -> Option<Seq<char>> {
    match name {
        Some(n) => {
            let s = safe_chars(n);
            if s.len() == 0 || s == "."@ || s == ".."@ {
                None
            } else {
                Some(s)
            }
        },
        None => None,
    }
}

/// The file name of a part: its number, and its own name where that can be kept.
pub open spec fn file_name(name: Option<Seq<char>>, index: int, content_type: Seq<char>) -> Seq<
    char,
> {
    let base = match kept_name(name) {
        Some(n) => n,
        None => "part"@ + text::dec_int(index) + extension(content_type),
    };
    text::dec_int(index) + "_"@ + base
}

pub fn ext_for(content_type: &str) -> (r: &'static str)
    ensures
        r@ == extension(content_type@),
{
    let c = text::chars_of(content_type);
    let parts = text::split_at_char(c.as_slice(), ';');
    assert(text::slices(parts@)[0] == parts@[0]@);
    let t = text::trimmed(parts[0]);
    if text::is(t, "text/plain") {
        ".txt"
    } else if text::is(t, "text/html") {
        ".html"
    } else if text::is(t, "image/jpeg") {
        ".jpg"
    } else if text::is(t, "image/png") {
        ".png"
    } else if text::is(t, "image/gif") {
        ".gif"
    } else if text::is(t, "audio/amr") {
        ".amr"
    } else if text::is(t, "video/3gpp") {
        ".3gp"
    } else if text::is(t, "application/smil") {
        ".smil"
    } else {
        ".bin"
    }
}

fn safe_name(name: &str) -> (r: String)
    ensures
        r@ == safe_chars(name@),
{
    let c = text::chars_of(name);
    let mut out: Vec<char> = Vec::new();
    let mut i: usize = 0;
    while i < c.len()
        invariant
            i <= c@.len(),
            out@ =~= safe_chars(c@.take(i as int)),
        decreases c@.len() - i,
    {
        let ch = c[i];
        assert(c@.take(i + 1) =~= c@.take(i as int).push(ch));
        if alphanumeric(ch) || ch == '.' || ch == '_' || ch == '-' {
            out.push(ch);
        } else {
            out.push('_');
        }
        i += 1;
    }
    assert(c@.take(i as int) =~= c@);
    text::string_of(out.as_slice())
}

/// The file name of a part.
pub fn sanitize_name(name: Option<&str>, index: i64, content_type: &str) -> (r: String)
    ensures
        r@ == file_name(text::opt_str(name), index as int, content_type@),
{
    let kept = match name {
        Some(n) => {
            let s = safe_name(n);
            let c = text::chars_of(s.as_str());
            if c.len() == 0 || text::is(c.as_slice(), ".") || text::is(c.as_slice(), "..") {
                None
            } else {
                Some(s)
            }
        },
        None => None,
    };
    let mut out = text::decimal_i64(index);
    out.append("_");
    match kept {
        Some(n) => out.append(n.as_str()),
        None => {
            let mut base = text::owned("part");
            base.append(text::decimal_i64(index).as_str());
            base.append(ext_for(content_type));
            out.append(base.as_str());
        },
    }
    out
}

proof fn lemma_dec_chars(n: nat)
    ensures
        forall|i: int|
            0 <= i < text::dec(n).len() ==> '0' <= #[trigger] text::dec(n)[i] && text::dec(n)[i]
                <= '9',
{
    text::lemma_dec_reads_back(n);
    assert forall|i: int| 0 <= i < text::dec(n).len() implies '0' <= #[trigger] text::dec(n)[i]
        && text::dec(n)[i] <= '9' by {
        assert(text::is_digit(text::dec(n)[i]));
    }
}

/// The name of a file leads nowhere else: it holds no separator, and is neither `.` nor `..`.
pub proof fn law_a_file_name_stays_in_its_directory(
    name: Option<Seq<char>>,
    index: int,
    content_type: Seq<char>,
)
    ensures
        !file_name(name, index, content_type).contains('/'),
        !file_name(name, index, content_type).contains('\0'),
        file_name(name, index, content_type) != "."@,
        file_name(name, index, content_type) != ".."@,
{
    reveal_strlit("_");
    reveal_strlit("-");
    reveal_strlit("part");
    reveal_strlit(".");
    reveal_strlit("..");
    reveal_strlit(".txt");
    reveal_strlit(".html");
    reveal_strlit(".jpg");
    reveal_strlit(".png");
    reveal_strlit(".gif");
    reveal_strlit(".amr");
    reveal_strlit(".3gp");
    reveal_strlit(".smil");
    reveal_strlit(".bin");
    let f = file_name(name, index, content_type);
    if index >= 0 {
        lemma_dec_chars(index as nat);
    } else {
        lemma_dec_chars((-index) as nat);
    }
    let d = text::dec_int(index);
    assert(forall|i: int| 0 <= i < d.len() ==> d[i] != '/' && d[i] != '\0' && d[i] != '_');
    let base = match kept_name(name) {
        Some(n) => n,
        None => "part"@ + d + extension(content_type),
    };
    assert(forall|i: int| 0 <= i < base.len() ==> base[i] != '/' && base[i] != '\0');
    assert(f == d + "_"@ + base);
    assert forall|i: int| 0 <= i < f.len() implies f[i] != '/' && f[i] != '\0' by {
        if i < d.len() {
        } else if i == d.len() {
            assert(f[i] == '_');
        } else {
            assert(f[i] == base[i - d.len() - 1]);
        }
    }
    assert(f[d.len() as int] == '_');
}

// ------------------------------------------------------------------ retries

/// A stored message that was announced again.
#[derive(Debug, Clone, Copy, PartialEq, Eq, Structural)]
pub enum Again {
    /// There is nothing left to do for it.
    Ignore,
    /// Its body was never fetched.
    Fetch,
}

/// Tell a re-announcement apart from a re-delivery that still needs work, by the status of the row
/// that a previous copy was stored as: a notification the carrier repeats because the body was never
/// fetched has the same identity as the one already stored.
pub fn announced_again(status: &str) -> (r: Again)
    ensures
        r == if status@ == "received"@ {
            Again::Ignore
        } else {
            Again::Fetch
        },
{
    if text::str_is(status, "received") {
        Again::Ignore
    } else {
        Again::Fetch
    }
}

/// A name of ASCII letters, digits, dots, underscores and hyphens is kept as it is behind the number of
/// the part. A part without a name is called by its number and the extension of its type, whatever
/// parameters that has.
pub proof fn law_a_plain_name_is_kept(name: Seq<char>, index: nat, kind: Seq<char>, params: Seq<char>)
    requires
        name.len() > 0,
        name != "."@ && name != ".."@,
        forall|i: int|
            0 <= i < name.len() ==> {
                ||| 'a' <= #[trigger] name[i] <= 'z'
                ||| 'A' <= name[i] <= 'Z'
                ||| '0' <= name[i] <= '9'
                ||| name[i] == '.' || name[i] == '_' || name[i] == '-'
            },
        !kind.contains(';'),
        text::is_trimmed(kind),
    ensures
        file_name(Some(name), index as int, kind) == text::dec(index) + "_"@ + name,
        extension(kind + ";"@ + params) == extension(kind),
        file_name(None, index as int, kind + ";"@ + params) == text::dec(index) + "_part"@ + text::dec(
            index,
        ) + extension(kind),
        kind == "text/plain"@ ==> extension(kind) == ".txt"@,
        kind == "text/html"@ ==> extension(kind) == ".html"@,
        kind == "image/jpeg"@ ==> extension(kind) == ".jpg"@,
        kind == "image/png"@ ==> extension(kind) == ".png"@,
        kind == "image/gif"@ ==> extension(kind) == ".gif"@,
        kind == "audio/amr"@ ==> extension(kind) == ".amr"@,
        kind == "video/3gpp"@ ==> extension(kind) == ".3gp"@,
        kind == "application/smil"@ ==> extension(kind) == ".smil"@,
{
    reveal_strlit(";");
    reveal_strlit("_");
    reveal_strlit("part");
    reveal_strlit("_part");
    assert(safe_chars(name) =~= name);
    assert(";"@ =~= seq![';']);
    text::lemma_split_once_none(kind, ';');
    text::lemma_trimmed(kind);
    let whole = kind + ";"@ + params;
    assert(whole[kind.len() as int] == ';');
    assert forall|j: int| 0 <= j < kind.len() implies whole[j] != ';' by {
        assert(kind.contains(kind[j]));
    }
    text::lemma_find_unique(whole, ';', kind.len() as int);
    assert(whole.take(kind.len() as int) =~= kind);
    assert(text::split(whole, ';')[0] == kind);
    assert("_"@ + ("part"@ + text::dec(index) + extension(kind)) =~= "_part"@ + text::dec(index)
        + extension(kind));
    assert(text::dec(index) + "_"@ + ("part"@ + text::dec(index) + extension(kind)) =~= text::dec(
        index,
    ) + "_part"@ + text::dec(index) + extension(kind));
    lemma_types_differ();
}

proof fn lemma_types_differ()
    ensures
        "text/html"@ != "text/plain"@,
        "image/jpeg"@ != "text/plain"@,
        "image/jpeg"@ != "text/html"@,
        "image/png"@ != "text/plain"@,
        "image/png"@ != "text/html"@,
        "image/png"@ != "image/jpeg"@,
        "image/gif"@ != "text/plain"@,
        "image/gif"@ != "text/html"@,
        "image/gif"@ != "image/jpeg"@,
        "image/gif"@ != "image/png"@,
        "audio/amr"@ != "text/plain"@,
        "audio/amr"@ != "text/html"@,
        "audio/amr"@ != "image/jpeg"@,
        "audio/amr"@ != "image/png"@,
        "audio/amr"@ != "image/gif"@,
        "video/3gpp"@ != "text/plain"@,
        "video/3gpp"@ != "text/html"@,
        "video/3gpp"@ != "image/jpeg"@,
        "video/3gpp"@ != "image/png"@,
        "video/3gpp"@ != "image/gif"@,
        "video/3gpp"@ != "audio/amr"@,
        "application/smil"@ != "text/plain"@,
        "application/smil"@ != "text/html"@,
        "application/smil"@ != "image/jpeg"@,
        "application/smil"@ != "image/png"@,
        "application/smil"@ != "image/gif"@,
        "application/smil"@ != "audio/amr"@,
        "application/smil"@ != "video/3gpp"@,
{
    reveal_strlit("text/plain");
    reveal_strlit("text/html");
    reveal_strlit("image/jpeg");
    reveal_strlit("image/png");
    reveal_strlit("image/gif");
    reveal_strlit("audio/amr");
    reveal_strlit("video/3gpp");
    reveal_strlit("application/smil");
    assert("image/jpeg"@[6] == 'j' && "text/plain"@[6] == 'l');
    assert("image/jpeg"@[0] == 'i' && "text/plain"@[0] == 't');
    assert("image/png"@[6] == 'p' && "image/gif"@[6] == 'g');
    assert("text/html"@[0] == 't' && "image/png"@[0] == 'i' && "image/gif"@[0] == 'i');
    assert("audio/amr"@[0] == 'a' && "video/3gpp"@[0] == 'v');
    assert("application/smil"@.len() == 16 && "audio/amr"@.len() == 9 && "video/3gpp"@.len() == 10);
}

} // verus!
