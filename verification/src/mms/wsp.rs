//! WSP (WAP-230) primitive encoding used by the MMS encapsulation format.
//!
//! Only the pieces MMS needs: uintvar, value-length, text strings, encoded strings with a charset,
//! integers, and content types with parameters. Unknown constructs can always be skipped, which
//! keeps the decoder going on carrier-specific extensions.
//!
//! Each read is modelled on the bytes that are left: what it yields, and how many of them it uses
//! up, also where it yields nothing.
use vstd::prelude::*;
use vstd::utf8::*;

use crate::text;

verus! {

// ------------------------------------------------------------------ tables

/// The well-known content types (WSP assigned numbers).
pub open spec fn known_type(code: u8) -> Option<Seq<char>> {
    match code {
        0x00 => Some("*/*"@),
        0x01 => Some("text/*"@),
        0x02 => Some("text/html"@),
        0x03 => Some("text/plain"@),
        0x04 => Some("text/x-hdml"@),
        0x05 => Some("text/x-ttml"@),
        0x06 => Some("text/x-vCalendar"@),
        0x07 => Some("text/x-vCard"@),
        0x08 => Some("text/vnd.wap.wml"@),
        0x09 => Some("text/vnd.wap.wmlscript"@),
        0x0A => Some("text/vnd.wap.wta-event"@),
        0x0B => Some("multipart/*"@),
        0x0C => Some("multipart/mixed"@),
        0x0D => Some("multipart/form-data"@),
        0x0E => Some("multipart/byteranges"@),
        0x0F => Some("multipart/alternative"@),
        0x10 => Some("application/*"@),
        0x11 => Some("application/java-vm"@),
        0x12 => Some("application/x-www-form-urlencoded"@),
        0x13 => Some("application/x-hdmlc"@),
        0x14 => Some("application/vnd.wap.wmlc"@),
        0x15 => Some("application/vnd.wap.wmlscriptc"@),
        0x16 => Some("application/vnd.wap.wta-eventc"@),
        0x17 => Some("application/vnd.wap.uaprof"@),
        0x18 => Some("application/vnd.wap.wtls-ca-certificate"@),
        0x19 => Some("application/vnd.wap.wtls-user-certificate"@),
        0x1A => Some("application/x-x509-ca-cert"@),
        0x1B => Some("application/x-x509-user-cert"@),
        0x1C => Some("image/*"@),
        0x1D => Some("image/gif"@),
        0x1E => Some("image/jpeg"@),
        0x1F => Some("image/tiff"@),
        0x20 => Some("image/png"@),
        0x21 => Some("image/vnd.wap.wbmp"@),
        0x22 => Some("application/vnd.wap.multipart.*"@),
        0x23 => Some("application/vnd.wap.multipart.mixed"@),
        0x24 => Some("application/vnd.wap.multipart.form-data"@),
        0x25 => Some("application/vnd.wap.multipart.byteranges"@),
        0x26 => Some("application/vnd.wap.multipart.alternative"@),
        0x27 => Some("application/xml"@),
        0x28 => Some("text/xml"@),
        0x29 => Some("application/vnd.wap.wbxml"@),
        0x2A => Some("application/x-x968-cross-cert"@),
        0x2B => Some("application/x-x968-ca-cert"@),
        0x2C => Some("application/x-x968-user-cert"@),
        0x2D => Some("text/vnd.wap.si"@),
        0x2E => Some("application/vnd.wap.sic"@),
        0x2F => Some("text/vnd.wap.sl"@),
        0x30 => Some("application/vnd.wap.slc"@),
        0x31 => Some("text/vnd.wap.co"@),
        0x32 => Some("application/vnd.wap.coc"@),
        0x33 => Some("application/vnd.wap.multipart.related"@),
        0x34 => Some("application/vnd.wap.sia"@),
        0x35 => Some("text/vnd.wap.connectivity-xml"@),
        0x36 => Some("application/vnd.wap.connectivity-wbxml"@),
        0x37 => Some("application/pkcs7-mime"@),
        0x3E => Some("application/vnd.wap.mms-message"@),
        _ => None,
    }
}

fn known_type_text(code: u8) -> (r: Option<&'static str>)
    ensures
        text::opt_str(r) == known_type(code),
{
    match code {
        0x00 => Some("*/*"),
        0x01 => Some("text/*"),
        0x02 => Some("text/html"),
        0x03 => Some("text/plain"),
        0x04 => Some("text/x-hdml"),
        0x05 => Some("text/x-ttml"),
        0x06 => Some("text/x-vCalendar"),
        0x07 => Some("text/x-vCard"),
        0x08 => Some("text/vnd.wap.wml"),
        0x09 => Some("text/vnd.wap.wmlscript"),
        0x0A => Some("text/vnd.wap.wta-event"),
        0x0B => Some("multipart/*"),
        0x0C => Some("multipart/mixed"),
        0x0D => Some("multipart/form-data"),
        0x0E => Some("multipart/byteranges"),
        0x0F => Some("multipart/alternative"),
        0x10 => Some("application/*"),
        0x11 => Some("application/java-vm"),
        0x12 => Some("application/x-www-form-urlencoded"),
        0x13 => Some("application/x-hdmlc"),
        0x14 => Some("application/vnd.wap.wmlc"),
        0x15 => Some("application/vnd.wap.wmlscriptc"),
        0x16 => Some("application/vnd.wap.wta-eventc"),
        0x17 => Some("application/vnd.wap.uaprof"),
        0x18 => Some("application/vnd.wap.wtls-ca-certificate"),
        0x19 => Some("application/vnd.wap.wtls-user-certificate"),
        0x1A => Some("application/x-x509-ca-cert"),
        0x1B => Some("application/x-x509-user-cert"),
        0x1C => Some("image/*"),
        0x1D => Some("image/gif"),
        0x1E => Some("image/jpeg"),
        0x1F => Some("image/tiff"),
        0x20 => Some("image/png"),
        0x21 => Some("image/vnd.wap.wbmp"),
        0x22 => Some("application/vnd.wap.multipart.*"),
        0x23 => Some("application/vnd.wap.multipart.mixed"),
        0x24 => Some("application/vnd.wap.multipart.form-data"),
        0x25 => Some("application/vnd.wap.multipart.byteranges"),
        0x26 => Some("application/vnd.wap.multipart.alternative"),
        0x27 => Some("application/xml"),
        0x28 => Some("text/xml"),
        0x29 => Some("application/vnd.wap.wbxml"),
        0x2A => Some("application/x-x968-cross-cert"),
        0x2B => Some("application/x-x968-ca-cert"),
        0x2C => Some("application/x-x968-user-cert"),
        0x2D => Some("text/vnd.wap.si"),
        0x2E => Some("application/vnd.wap.sic"),
        0x2F => Some("text/vnd.wap.sl"),
        0x30 => Some("application/vnd.wap.slc"),
        0x31 => Some("text/vnd.wap.co"),
        0x32 => Some("application/vnd.wap.coc"),
        0x33 => Some("application/vnd.wap.multipart.related"),
        0x34 => Some("application/vnd.wap.sia"),
        0x35 => Some("text/vnd.wap.connectivity-xml"),
        0x36 => Some("application/vnd.wap.connectivity-wbxml"),
        0x37 => Some("application/pkcs7-mime"),
        0x3E => Some("application/vnd.wap.mms-message"),
        _ => None,
    }
}

/// The name of a content type; what is not well known is `application/octet-stream`.
pub open spec fn type_text(code: u8) -> Seq<char> {
    match known_type(code) {
        Some(n) => n,
        None => "application/octet-stream"@,
    }
}

pub fn content_type_name(code: u8) -> (r: String)
    ensures
        r@ == type_text(code),
{
    match known_type_text(code) {
        Some(n) => text::owned(n),
        None => text::owned("application/octet-stream"),
    }
}

/// The first code, from `from` on, whose content type is `name` up to case.
pub open spec fn type_code(name: Seq<char>, from: u8) -> Option<u8>
    decreases 255 - from,
{
    if from >= 0x3f {
        None
    } else if known_type(from).is_some() && text::eq_nocase(known_type(from).unwrap(), name) {
        Some(from)
    } else {
        type_code(name, (from + 1) as u8)
    }
}

pub fn content_type_code(name: &str) -> (r: Option<u8>)
    ensures
        r == type_code(name@, 0),
{
    let mut code: u8 = 0;
    while code < 0x3f
        invariant
            code <= 0x3f,
            type_code(name@, 0) == type_code(name@, code),
        decreases 0x3f - code,
    {
        if let Some(n) = known_type_text(code) {
            if text::str_is_nocase(n, name) {
                return Some(code);
            }
        }
        code += 1;
    }
    None
}

/// A content type that has a code is the one its code names, up to case.
pub proof fn law_type_code_names_the_type(name: Seq<char>, from: u8)
    ensures
        match type_code(name, from) {
            Some(c) => known_type(c).is_some() && text::eq_nocase(type_text(c), name) && c < 0x3f,
            None => forall|c: u8|
                from <= c && known_type(c).is_some() ==> !text::eq_nocase(
                    #[trigger] known_type(c).unwrap(),
                    name,
                ),
        },
    decreases 255 - from,
{
    if from < 0x3f && !(known_type(from).is_some() && text::eq_nocase(known_type(from).unwrap(), name)) {
        law_type_code_names_the_type(name, (from + 1) as u8);
    }
}

/// The code whose content type a lower-case text can be at all, by its length and a few characters;
/// 255 where it can be none.
spec fn type_shape(s: Seq<char>) -> u8 {
    if s.len() > 41 {
        0xff
    } else {
        match s.len() as u8 {
            3 => 0x00,
            6 => 0x01,
            7 => 0x1c,
            8 => 0x28,
            9 => if s[6] == 'g' {
                0x1d
            } else if s[6] == 'p' {
                0x20
            } else {
                0x02
            },
            10 => if s[6] == 'j' {
                0x1e
            } else if s[6] == 'l' {
                0x03
            } else {
                0x1f
            },
            11 => if s[7] == 'h' {
                0x04
            } else if s[7] == 'r' {
                0x0b
            } else {
                0x05
            },
            12 => 0x07,
            13 => 0x10,
            15 => if s[13] == 'c' {
                0x31
            } else if s[13] == 'e' {
                0x0c
            } else if s[13] == 'm' {
                0x27
            } else {
                if s[14] == 'i' {
                    0x2d
                } else {
                    0x2f
                }
            },
            16 => if s[5] == 'v' {
                0x08
            } else {
                0x06
            },
            18 => 0x21,
            19 => if s[12] == 'j' {
                0x11
            } else if s[12] == 'r' {
                0x0d
            } else {
                0x13
            },
            20 => 0x0e,
            21 => 0x0f,
            22 => if s[14] == 'c' {
                0x37
            } else if s[14] == 'm' {
                0x09
            } else {
                0x0a
            },
            23 => if s[21] == 'i' {
                if s[22] == 'a' {
                    0x34
                } else {
                    0x2e
                }
            } else if s[21] == 'l' {
                0x30
            } else {
                0x32
            },
            24 => if s[12] == 'o' {
                0xff
            } else {
                0x14
            },
            25 => 0x29,
            26 => if s[15] == '.' {
                0x17
            } else if s[15] == '5' {
                0x1a
            } else {
                0x2b
            },
            28 => if s[15] == '5' {
                0x1b
            } else {
                0x2c
            },
            29 => if s[0] == 'a' {
                0x2a
            } else {
                0x35
            },
            30 => if s[21] == 'm' {
                0x15
            } else {
                0x16
            },
            31 => if s[21] == 'm' {
                0x3e
            } else {
                0x22
            },
            33 => 0x12,
            35 => 0x23,
            37 => 0x33,
            38 => 0x36,
            39 => if s[20] == 'm' {
                0x24
            } else {
                0x18
            },
            40 => 0x25,
            41 => if s[20] == 'm' {
                0x26
            } else {
                0x19
            },
            _ => 0xff,
        }
    }
}

/// A content type is the only one of its shape.
proof fn lemma_type_shape(c: u8)
    requires
        known_type(c).is_some(),
    ensures
        type_shape(text::lower(known_type(c).unwrap())) == c,
{
    match c {
        0x00 => {
            reveal_strlit("*/*");
        },
        0x01 => {
            reveal_strlit("text/*");
        },
        0x02 => {
            reveal_strlit("text/html");
        },
        0x03 => {
            reveal_strlit("text/plain");
        },
        0x04 => {
            reveal_strlit("text/x-hdml");
        },
        0x05 => {
            reveal_strlit("text/x-ttml");
        },
        0x06 => {
            reveal_strlit("text/x-vCalendar");
        },
        0x07 => {
            reveal_strlit("text/x-vCard");
        },
        0x08 => {
            reveal_strlit("text/vnd.wap.wml");
        },
        0x09 => {
            reveal_strlit("text/vnd.wap.wmlscript");
        },
        0x0a => {
            reveal_strlit("text/vnd.wap.wta-event");
        },
        0x0b => {
            reveal_strlit("multipart/*");
        },
        0x0c => {
            reveal_strlit("multipart/mixed");
        },
        0x0d => {
            reveal_strlit("multipart/form-data");
        },
        0x0e => {
            reveal_strlit("multipart/byteranges");
        },
        0x0f => {
            reveal_strlit("multipart/alternative");
        },
        0x10 => {
            reveal_strlit("application/*");
        },
        0x11 => {
            reveal_strlit("application/java-vm");
        },
        0x12 => {
            reveal_strlit("application/x-www-form-urlencoded");
        },
        0x13 => {
            reveal_strlit("application/x-hdmlc");
        },
        0x14 => {
            reveal_strlit("application/vnd.wap.wmlc");
        },
        0x15 => {
            reveal_strlit("application/vnd.wap.wmlscriptc");
        },
        0x16 => {
            reveal_strlit("application/vnd.wap.wta-eventc");
        },
        0x17 => {
            reveal_strlit("application/vnd.wap.uaprof");
        },
        0x18 => {
            reveal_strlit("application/vnd.wap.wtls-ca-certificate");
        },
        0x19 => {
            reveal_strlit("application/vnd.wap.wtls-user-certificate");
        },
        0x1a => {
            reveal_strlit("application/x-x509-ca-cert");
        },
        0x1b => {
            reveal_strlit("application/x-x509-user-cert");
        },
        0x1c => {
            reveal_strlit("image/*");
        },
        0x1d => {
            reveal_strlit("image/gif");
        },
        0x1e => {
            reveal_strlit("image/jpeg");
        },
        0x1f => {
            reveal_strlit("image/tiff");
        },
        0x20 => {
            reveal_strlit("image/png");
        },
        0x21 => {
            reveal_strlit("image/vnd.wap.wbmp");
        },
        0x22 => {
            reveal_strlit("application/vnd.wap.multipart.*");
        },
        0x23 => {
            reveal_strlit("application/vnd.wap.multipart.mixed");
        },
        0x24 => {
            reveal_strlit("application/vnd.wap.multipart.form-data");
        },
        0x25 => {
            reveal_strlit("application/vnd.wap.multipart.byteranges");
        },
        0x26 => {
            reveal_strlit("application/vnd.wap.multipart.alternative");
        },
        0x27 => {
            reveal_strlit("application/xml");
        },
        0x28 => {
            reveal_strlit("text/xml");
        },
        0x29 => {
            reveal_strlit("application/vnd.wap.wbxml");
        },
        0x2a => {
            reveal_strlit("application/x-x968-cross-cert");
        },
        0x2b => {
            reveal_strlit("application/x-x968-ca-cert");
        },
        0x2c => {
            reveal_strlit("application/x-x968-user-cert");
        },
        0x2d => {
            reveal_strlit("text/vnd.wap.si");
        },
        0x2e => {
            reveal_strlit("application/vnd.wap.sic");
        },
        0x2f => {
            reveal_strlit("text/vnd.wap.sl");
        },
        0x30 => {
            reveal_strlit("application/vnd.wap.slc");
        },
        0x31 => {
            reveal_strlit("text/vnd.wap.co");
        },
        0x32 => {
            reveal_strlit("application/vnd.wap.coc");
        },
        0x33 => {
            reveal_strlit("application/vnd.wap.multipart.related");
        },
        0x34 => {
            reveal_strlit("application/vnd.wap.sia");
        },
        0x35 => {
            reveal_strlit("text/vnd.wap.connectivity-xml");
        },
        0x36 => {
            reveal_strlit("application/vnd.wap.connectivity-wbxml");
        },
        0x37 => {
            reveal_strlit("application/pkcs7-mime");
        },
        0x3e => {
            reveal_strlit("application/vnd.wap.mms-message");
        },
        _ => {},
    }
}

/// A content type has a code exactly where one is listed under its name, up to case, and that is the
/// only one: the code of a name is the code it was named by. What is not listed is named
/// `application/octet-stream`, which has no code.
pub proof fn law_types_and_codes_agree(name: Seq<char>, c: u8)
    ensures
        type_code(name, 0) == Some(c) <==> known_type(c).is_some() && text::eq_nocase(
            known_type(c).unwrap(),
            name,
        ),
        known_type(c).is_some() ==> type_code(type_text(c), 0) == Some(c) && c < 0x80,
        known_type(c).is_none() ==> type_text(c) == "application/octet-stream"@ && type_code(
            type_text(c),
            0,
        ).is_none(),
{
    law_type_code_names_the_type(name, 0);
    law_type_code_names_the_type(type_text(c), 0);
    if known_type(c).is_some() {
        lemma_type_shape(c);
        if let Some(d) = type_code(type_text(c), 0) {
            lemma_type_shape(d);
        }
        if let Some(d) = type_code(name, 0) {
            lemma_type_shape(d);
        }
    } else {
        reveal_strlit("application/octet-stream");
        assert(type_shape(text::lower(type_text(c))) == 0xff);
        if let Some(d) = type_code(type_text(c), 0) {
            lemma_type_shape(d);
        }
    }
}

/// The well-known parameter names.
pub open spec fn known_param(code: u8) -> Option<Seq<char>> {
    match code {
        0x00 => Some("q"@),
        0x01 => Some("charset"@),
        0x02 => Some("level"@),
        0x03 => Some("type"@),
        0x05 => Some("name"@),
        0x06 => Some("filename"@),
        0x07 => Some("differences"@),
        0x08 => Some("padding"@),
        0x09 => Some("type"@),
        0x0A => Some("start"@),
        0x0B => Some("start-info"@),
        0x0C => Some("comment"@),
        0x0D => Some("domain"@),
        0x0E => Some("max-age"@),
        0x0F => Some("path"@),
        0x10 => Some("secure"@),
        0x11 => Some("sec"@),
        0x12 => Some("mac"@),
        0x13 => Some("creation-date"@),
        0x14 => Some("modification-date"@),
        0x15 => Some("read-date"@),
        0x16 => Some("size"@),
        0x17 => Some("name"@),
        0x18 => Some("filename"@),
        0x19 => Some("start"@),
        0x1A => Some("start-info"@),
        0x1B => Some("comment"@),
        0x1C => Some("domain"@),
        0x1D => Some("path"@),
        _ => None,
    }
}

fn param_name(code: u8) -> (r: Option<&'static str>)
    ensures
        text::opt_str(r) == known_param(code),
{
    match code {
        0x00 => Some("q"),
        0x01 => Some("charset"),
        0x02 => Some("level"),
        0x03 => Some("type"),
        0x05 => Some("name"),
        0x06 => Some("filename"),
        0x07 => Some("differences"),
        0x08 => Some("padding"),
        0x09 => Some("type"),
        0x0A => Some("start"),
        0x0B => Some("start-info"),
        0x0C => Some("comment"),
        0x0D => Some("domain"),
        0x0E => Some("max-age"),
        0x0F => Some("path"),
        0x10 => Some("secure"),
        0x11 => Some("sec"),
        0x12 => Some("mac"),
        0x13 => Some("creation-date"),
        0x14 => Some("modification-date"),
        0x15 => Some("read-date"),
        0x16 => Some("size"),
        0x17 => Some("name"),
        0x18 => Some("filename"),
        0x19 => Some("start"),
        0x1A => Some("start-info"),
        0x1B => Some("comment"),
        0x1C => Some("domain"),
        0x1D => Some("path"),
        _ => None,
    }
}

/// The name of the character encoding a MIBenum stands for; UTF-8 where it is not a known one.
pub open spec fn mib_charset(mib: nat) -> Seq<char> {
    if mib == 3 || mib == 4 {
        "windows-1252"@
    } else if mib == 1000 || mib == 1015 || mib == 1013 {
        "UTF-16BE"@
    } else if mib == 1014 {
        "UTF-16LE"@
    } else if mib == 36 || mib == 38 {
        "EUC-KR"@
    } else if mib == 17 || mib == 2024 {
        "Shift_JIS"@
    } else if mib == 18 || mib == 2025 {
        "EUC-JP"@
    } else if mib == 2026 {
        "Big5"@
    } else if mib == 113 || mib == 2085 {
        "GBK"@
    } else {
        "UTF-8"@
    }
}

/// IANA MIBenum to the name of a character encoding.
pub fn charset_for(mib: u32) -> (r: &'static str)
    ensures
        r@ == mib_charset(mib as nat),
{
    if mib == 3 || mib == 4 {
        "windows-1252"
    } else if mib == 1000 || mib == 1015 || mib == 1013 {
        "UTF-16BE"
    } else if mib == 1014 {
        "UTF-16LE"
    } else if mib == 36 || mib == 38 {
        "EUC-KR"
    } else if mib == 17 || mib == 2024 {
        "Shift_JIS"
    } else if mib == 18 || mib == 2025 {
        "EUC-JP"
    } else if mib == 2026 {
        "Big5"
    } else if mib == 113 || mib == 2085 {
        "GBK"
    } else {
        "UTF-8"
    }
}

// ------------------------------------------------------------------ character encodings

/// The text `encoding_rs` decodes from bytes under a label, or nothing where no encoding has the
/// label.
pub uninterp spec fn decoded_text(label: Seq<char>, data: Seq<u8>) -> Option<Seq<char>>;

/// The bytes are valid UTF-8 that does not start with a byte order mark.
pub open spec fn plain_utf8(data: Seq<u8>) -> bool {
    valid_utf8(data) && !(data.len() >= 3 && data[0] == 0xef && data[1] == 0xbb && data[2] == 0xbf)
}

/// The text of bytes in the encoding that has a label.
pub open spec fn charset_text(label: Seq<char>, data: Seq<u8>) -> Option<Seq<char>> {
    if label == "UTF-8"@ && plain_utf8(data) {
        Some(decode_utf8(data))
    } else {
        decoded_text(label, data)
    }
}

/// The decoder's buffer for this many bytes has a size that fits.
pub open spec fn decodable(n: nat) -> bool {
    n * 8 + 64 <= usize::MAX
}

/// `encoding_rs::Encoding::for_label` finds an encoding by its label and `Encoding::decode` decodes
/// with it. Valid UTF-8 under the label `UTF-8` comes back as it stands unless it starts with a byte
/// order mark; everything else about the result is a function of label and bytes that is left
/// unstated. The decoder panics where the size of its buffer overflows.
#[verifier::external_body]
pub(crate) fn decode_labelled(label: &str, data: &[u8]) -> (r: Option<String>)
    requires
        decodable(data@.len()),
    ensures
        label@ == "UTF-8"@ && plain_utf8(data@) ==> text::opt_text(r) == Some(decode_utf8(data@)),
        !(label@ == "UTF-8"@ && plain_utf8(data@)) ==> text::opt_text(r) == decoded_text(label@, data@),
{
    encoding_rs::Encoding::for_label(label.as_bytes()).map(|e| e.decode(data).0.into_owned())
}

/// The text of bytes under a label that may be unknown, then read as UTF-8.
pub open spec fn text_or_utf8(label: Seq<char>, data: Seq<u8>) -> Seq<char> {
    match charset_text(label, data) {
        Some(t) => t,
        None => match charset_text("UTF-8"@, data) {
            Some(t) => t,
            None => seq![],
        },
    }
}

pub(crate) fn decode_or_utf8(label: &str, data: &[u8]) -> (r: String)
    requires
        decodable(data@.len()),
    ensures
        r@ == text_or_utf8(label@, data@),
{
    match decode_labelled(label, data) {
        Some(t) => t,
        None => match decode_labelled("UTF-8", data) {
            Some(t) => t,
            None => String::new(),
        },
    }
}

// ------------------------------------------------------------------ reading, mathematically

/// The index of the first zero byte, or the length.
pub open spec fn find_zero(s: Seq<u8>) -> int
    decreases s.len(),
{
    if s.len() == 0 || s[0] == 0 {
        0
    } else {
        1 + find_zero(s.skip(1))
    }
}

pub proof fn lemma_find_zero(s: Seq<u8>)
    ensures
        0 <= find_zero(s) <= s.len(),
        find_zero(s) < s.len() ==> s[find_zero(s)] == 0,
        forall|j: int| 0 <= j < find_zero(s) ==> s[j] != 0,
    decreases s.len(),
{
    if s.len() > 0 && s[0] != 0 {
        lemma_find_zero(s.skip(1));
        assert forall|j: int| 0 <= j < find_zero(s) implies s[j] != 0 by {
            if j > 0 {
                assert(s.skip(1)[j - 1] == s[j]);
            }
        }
    }
}

pub proof fn lemma_find_zero_unique(s: Seq<u8>, k: int)
    requires
        0 <= k <= s.len(),
        k < s.len() ==> s[k] == 0,
        forall|j: int| 0 <= j < k ==> s[j] != 0,
    ensures
        find_zero(s) == k,
{
    lemma_find_zero(s);
    if find_zero(s) < k {
        assert(s[find_zero(s)] == 0);
    }
}

/// A variable-length unsigned integer of at most `left` bytes, seven bits each, after `acc`.
pub open spec fn uintvar_of(s: Seq<u8>, left: nat, acc: nat) -> (Option<nat>, nat)
    decreases left,
{
    if left == 0 || s.len() == 0 {
        (None, 0)
    } else {
        let v = acc * 128 + s[0] as nat % 128;
        if s[0] < 128 {
            (Some(v), 1)
        } else {
            let (r, n) = uintvar_of(s.skip(1), (left - 1) as nat, v);
            (r, n + 1)
        }
    }
}

pub open spec fn uintvar_read(s: Seq<u8>) -> (Option<nat>, nat) {
    uintvar_of(s, 8, 0)
}

/// Text up to a zero byte, or to the end; a leading quote is not part of it.
pub open spec fn text_read(s: Seq<u8>) -> (Option<Seq<char>>, nat) {
    let q: nat = if s.len() > 0 && s[0] == 0x7f {
        1
    } else {
        0
    };
    let t = s.skip(q as int);
    let n = find_zero(t);
    if n < t.len() {
        (Some(text::lossy(t.take(n))), (q + n + 1) as nat)
    } else if t.len() > 0 {
        (Some(text::lossy(t)), s.len())
    } else {
        (None, q)
    }
}

/// A short length, or 0x1f and a uintvar, which saturates at the largest machine word.
pub open spec fn length_read(s: Seq<u8>) -> (Option<nat>, nat) {
    if s.len() == 0 {
        (None, 0)
    } else if s[0] <= 30 {
        (Some(s[0] as nat), 1)
    } else if s[0] == 0x1f {
        let (v, n) = uintvar_read(s.skip(1));
        match v {
            Some(v) => (Some(if v <= usize::MAX { v } else { usize::MAX as nat }), n + 1),
            None => (None, n + 1),
        }
    } else {
        (None, 0)
    }
}

/// A length, cut down to what is left behind it.
pub open spec fn bounded_read(s: Seq<u8>) -> (Option<nat>, nat) {
    let (v, n) = length_read(s);
    match v {
        Some(v) => (Some(if v <= s.len() - n { v } else { (s.len() - n) as nat }), n),
        None => (None, n),
    }
}

/// The big-endian value of bytes.
pub open spec fn big_endian(s: Seq<u8>) -> nat
    decreases s.len(),
{
    if s.len() == 0 {
        0
    } else {
        big_endian(s.drop_last()) * 256 + s.last() as nat
    }
}

/// A length of one to eight, and that many big-endian bytes.
pub open spec fn long_read(s: Seq<u8>) -> (Option<nat>, nat) {
    if s.len() == 0 {
        (None, 0)
    } else if s[0] == 0 || s[0] > 8 || s.len() - 1 < s[0] {
        (None, 1)
    } else {
        (Some(big_endian(s.subrange(1, 1 + s[0] as int))), 1 + s[0] as nat)
    }
}

/// A byte with the high bit set stands for its low seven bits; anything else is a long integer.
pub open spec fn integer_read(s: Seq<u8>) -> (Option<nat>, nat) {
    if s.len() == 0 {
        (None, 0)
    } else if s[0] >= 128 {
        (Some((s[0] - 128) as nat), 1)
    } else {
        long_read(s)
    }
}

/// The text without its terminator: two zero bytes for UTF-16, one otherwise.
pub open spec fn unterminated(raw: Seq<u8>, charset: Seq<char>) -> Seq<u8> {
    let t: int = if text::has_prefix(charset, "UTF-16"@) {
        2
    } else {
        1
    };
    if raw.len() >= t && (forall|i: int| raw.len() - t <= i < raw.len() ==> raw[i] == 0) {
        raw.take(raw.len() - t)
    } else {
        raw
    }
}

/// The text of the inside of an encoded string: a charset, then bytes in it.
pub open spec fn charset_read(s: Seq<u8>) -> Seq<char> {
    let (mib, n) = integer_read(s);
    let charset = mib_charset(match mib {
        Some(m) => m % 0x1_0000_0000,
        None => 106,
    });
    text_or_utf8(charset, unterminated(s.skip(n as int), charset))
}

/// An encoded string: plain text, or a length, a charset and text in that charset.
pub open spec fn encoded_read(s: Seq<u8>) -> (Option<Seq<char>>, nat) {
    if s.len() == 0 {
        (None, 0)
    } else if s[0] >= 0x20 {
        text_read(s)
    } else {
        let (len, n) = bounded_read(s);
        match len {
            Some(len) => (Some(charset_read(s.subrange(n as int, (n + len) as int))), n + len),
            None => (None, n),
        }
    }
}

pub open spec fn dec_or_empty(v: Option<nat>) -> Seq<char> {
    match v {
        Some(n) => text::dec(n),
        None => seq![],
    }
}

pub open spec fn text_or_empty(v: Option<Seq<char>>) -> Seq<char> {
    match v {
        Some(t) => t,
        None => seq![],
    }
}

/// The value of a parameter with a well-known name.
pub open spec fn param_value_read(code: u8, s: Seq<u8>) -> (Seq<char>, nat) {
    if code == 0x10 {
        (seq![], 0)
    } else if code == 0 {
        let (v, n) = uintvar_read(s);
        (dec_or_empty(v), n)
    } else if code == 0x02 || code == 0x0e || code == 0x16 {
        let (v, n) = integer_read(s);
        (dec_or_empty(v), n)
    } else if code == 0x01 {
        if s.len() > 0 && (s[0] >= 128 || s[0] < 0x20) {
            let (v, n) = integer_read(s);
            (
                match v {
                    Some(m) => mib_charset(m % 0x1_0000_0000),
                    None => seq![],
                },
                n,
            )
        } else {
            let (v, n) = text_read(s);
            (text_or_empty(v), n)
        }
    } else {
        let (v, n) = encoded_read(s);
        (text_or_empty(v), n)
    }
}

/// One parameter of a content type.
pub open spec fn param_read(s: Seq<u8>) -> (Option<(Seq<char>, Seq<char>)>, nat) {
    if s.len() == 0 {
        (None, 0)
    } else if s[0] >= 128 {
        let code = (s[0] - 128) as u8;
        let name = match known_param(code) {
            Some(n) => n,
            None => "x-unknown"@,
        };
        let (value, n) = param_value_read(code, s.skip(1));
        (Some((name, value)), n + 1)
    } else {
        let (name, n) = text_read(s);
        match name {
            None => (None, n),
            Some(name) => {
                let (value, m) = encoded_read(s.skip(n as int));
                (Some((name, text_or_empty(value))), n + m)
            },
        }
    }
}

/// Parameters to the end of the bytes, or to the first that cannot be read.
pub open spec fn params_read(s: Seq<u8>) -> Seq<(Seq<char>, Seq<char>)>
    decreases s.len(),
{
    let (p, n) = param_read(s);
    match p {
        Some(p) => if 0 < n <= s.len() {
            seq![p] + params_read(s.skip(n as int))
        } else {
            seq![p]
        },
        None => seq![],
    }
}

/// A content type inside a length: its name, then parameters.
pub open spec fn sized_type_read(s: Seq<u8>) -> Option<
    (Seq<char>, Seq<(Seq<char>, Seq<char>)>),
> {
    if s.len() == 0 {
        None
    } else if s[0] >= 128 {
        Some((type_text((s[0] - 128) as u8), params_read(s.skip(1))))
    } else {
        let (name, n) = text_read(s);
        match name {
            Some(name) => Some((name, params_read(s.skip(n as int)))),
            None => None,
        }
    }
}

/// A content type: a well-known one, a text, or a length and one with parameters.
pub open spec fn type_read(s: Seq<u8>) -> (
    Option<(Seq<char>, Seq<(Seq<char>, Seq<char>)>)>,
    nat,
) {
    if s.len() == 0 {
        (None, 0)
    } else if s[0] >= 128 {
        (Some((type_text((s[0] - 128) as u8), seq![])), 1)
    } else if s[0] >= 0x20 {
        let (t, n) = text_read(s);
        (
            match t {
                Some(t) => Some((t, seq![])),
                None => None,
            },
            n,
        )
    } else {
        let (len, n) = bounded_read(s);
        match len {
            Some(len) => (sized_type_read(s.subrange(n as int, (n + len) as int)), n + len),
            None => (None, n),
        }
    }
}

/// A header value of unknown type: whether it could be skipped, and its size.
pub open spec fn skip_read(s: Seq<u8>) -> (bool, nat) {
    if s.len() == 0 {
        (false, 0)
    } else if s[0] <= 0x1f {
        let (len, n) = bounded_read(s);
        match len {
            Some(len) => (true, n + len),
            None => (false, n),
        }
    } else if s[0] >= 128 {
        (true, 1)
    } else {
        let (t, n) = text_read(s);
        (t.is_some(), n)
    }
}

// ------------------------------------------------------------------ no read runs past the bytes

pub proof fn lemma_uintvar_bound(s: Seq<u8>, left: nat, acc: nat)
    ensures
        uintvar_of(s, left, acc).1 <= s.len(),
        uintvar_of(s, left, acc).1 <= left,
        left > 0 && s.len() > 0 ==> uintvar_of(s, left, acc).1 > 0,
    decreases left,
{
    if left > 0 && s.len() > 0 && s[0] >= 128 {
        lemma_uintvar_bound(s.skip(1), (left - 1) as nat, acc * 128 + s[0] as nat % 128);
    }
}

pub proof fn lemma_text_bound(s: Seq<u8>)
    ensures
        text_read(s).1 <= s.len(),
        s.len() > 0 ==> text_read(s).1 > 0,
        text_read(s).0.is_some() ==> text_read(s).1 > 0,
{
    lemma_find_zero(s.skip(if s.len() > 0 && s[0] == 0x7f {
        1
    } else {
        0
    }));
}

pub proof fn lemma_length_bound(s: Seq<u8>)
    ensures
        length_read(s).1 <= s.len(),
        length_read(s).0.is_some() ==> length_read(s).1 > 0 && length_read(s).0.unwrap()
            <= usize::MAX,
        bounded_read(s).1 == length_read(s).1,
        bounded_read(s).0.is_some() == length_read(s).0.is_some(),
        bounded_read(s).0.is_some() ==> bounded_read(s).1 + bounded_read(s).0.unwrap() <= s.len(),
{
    if s.len() > 0 {
        lemma_uintvar_bound(s.skip(1), 8, 0);
    }
}

pub proof fn lemma_encoded_bound(s: Seq<u8>)
    ensures
        encoded_read(s).1 <= s.len(),
{
    lemma_text_bound(s);
    lemma_length_bound(s);
}

pub proof fn lemma_param_bound(s: Seq<u8>)
    ensures
        param_read(s).1 <= s.len(),
        param_read(s).0.is_some() ==> param_read(s).1 > 0,
{
    if s.len() > 0 {
        let t = s.skip(1);
        lemma_uintvar_bound(t, 8, 0);
        lemma_text_bound(t);
        lemma_encoded_bound(t);
        lemma_text_bound(s);
        lemma_encoded_bound(s.skip(text_read(s).1 as int));
    }
}

/// No declared length makes a read use up more bytes than there are.
pub proof fn law_reads_stay_inside(s: Seq<u8>)
    ensures
        uintvar_read(s).1 <= s.len(),
        text_read(s).1 <= s.len(),
        length_read(s).1 <= s.len(),
        bounded_read(s).0.is_some() ==> bounded_read(s).1 + bounded_read(s).0.unwrap() <= s.len(),
        long_read(s).1 <= s.len(),
        integer_read(s).1 <= s.len(),
        encoded_read(s).1 <= s.len(),
        param_read(s).1 <= s.len(),
        type_read(s).1 <= s.len(),
        skip_read(s).1 <= s.len(),
        s.len() > 0 && skip_read(s).0 ==> skip_read(s).1 > 0,
{
    lemma_uintvar_bound(s, 8, 0);
    lemma_text_bound(s);
    lemma_length_bound(s);
    lemma_encoded_bound(s);
    lemma_param_bound(s);
}

// ------------------------------------------------------------------ reading

pub struct Reader<'a> {
    pub data: &'a [u8],
    pub pos: usize,
}

pub open spec fn opt_u64(v: Option<u64>) -> Option<nat> {
    match v {
        Some(n) => Some(n as nat),
        None => None,
    }
}

pub open spec fn opt_type(v: Option<(String, Vec<(String, String)>)>) -> Option<
    (Seq<char>, Seq<(Seq<char>, Seq<char>)>),
> {
    match v {
        Some((n, p)) => Some((n@, text::pairs(p@))),
        None => None,
    }
}

impl<'a> Reader<'a> {
    /// The bytes that have not been read.
    pub open spec fn rest(&self) -> Seq<u8> {
        if self.pos <= self.data@.len() {
            self.data@.skip(self.pos as int)
        } else {
            seq![]
        }
    }

    /// The reader after it used up `n` bytes of what `before` had left.
    pub open spec fn advanced(&self, before: &Reader<'a>, n: nat) -> bool {
        self.data == before.data && self.pos == before.pos + n
    }

    pub fn new(data: &'a [u8]) -> (r: Self)
        ensures
            r.data == data,
            r.pos == 0,
            r.rest() == data@,
    {
        let r = Self { data, pos: 0 };
        assert(r.rest() =~= data@);
        r
    }

    pub fn remaining(&self) -> (r: usize)
        ensures
            r == self.rest().len(),
    {
        if self.pos < self.data.len() {
            self.data.len() - self.pos
        } else {
            0
        }
    }

    pub fn eof(&self) -> (r: bool)
        ensures
            r == (self.rest().len() == 0),
    {
        self.pos >= self.data.len()
    }

    pub fn peek(&self) -> (r: Option<u8>)
        ensures
            r == if self.rest().len() > 0 {
                Some(self.rest()[0])
            } else {
                None
            },
    {
        if self.pos < self.data.len() {
            Some(self.data[self.pos])
        } else {
            None
        }
    }

    pub fn u8(&mut self) -> (r: Option<u8>)
        ensures
            r == if old(self).rest().len() > 0 {
                Some(old(self).rest()[0])
            } else {
                None
            },
            final(self).advanced(old(self), if r.is_some() { 1 } else { 0 }),
            r.is_some() ==> final(self).rest() == old(self).rest().skip(1),
    {
        if self.pos < self.data.len() {
            let b = self.data[self.pos];
            self.pos += 1;
            assert(self.rest() =~= old(self).rest().skip(1));
            Some(b)
        } else {
            None
        }
    }

    /// Use up `n` bytes that are there.
    pub(crate) fn advance(&mut self, n: usize)
        requires
            n <= old(self).rest().len(),
        ensures
            final(self).advanced(old(self), n as nat),
            final(self).rest() == old(self).rest().skip(n as int),
    {
        if n > 0 && self.pos <= self.data.len() {
            self.pos += n;
        }
        assert(self.rest() =~= old(self).rest().skip(n as int));
    }

    pub fn take(&mut self, n: usize) -> (r: Option<&'a [u8]>)
        ensures
            match r {
                Some(b) => n <= old(self).rest().len() && b@ == old(self).rest().take(n as int)
                    && final(self).advanced(old(self), n as nat) && final(self).rest() == old(
                    self,
                ).rest().skip(n as int),
                None => n > old(self).rest().len() && *final(self) == *old(self),
            },
    {
        if self.remaining() < n {
            return None;
        }
        if n == 0 {
            let out = vstd::slice::slice_subrange(self.data, 0, 0);
            assert(out@ =~= self.rest().take(0));
            assert(self.rest() =~= self.rest().skip(0));
            return Some(out);
        }
        let total = self.data.len();
        assert(self.pos + n <= total);
        let out = vstd::slice::slice_subrange(self.data, self.pos, self.pos + n);
        assert(out@ =~= self.rest().take(n as int));
        self.advance(n);
        Some(out)
    }

    /// Variable length unsigned integer, 7 bits per byte.
    pub fn uintvar(&mut self) -> (r: Option<u64>)
        ensures
            opt_u64(r) == uintvar_read(old(self).rest()).0,
            final(self).advanced(old(self), uintvar_read(old(self).rest()).1),
    {
        let mut value: u64 = 0;
        let mut k: usize = 0;
        let ghost s = self.rest();
        let ghost mut bound: int = 1;
        assert(s.skip(0) =~= s);
        while k < 8
            invariant
                k <= 8,
                k <= s.len(),
                s == old(self).rest(),
                self.advanced(old(self), k as nat),
                self.rest() == s.skip(k as int),
                value < bound,
                k == 0 ==> bound == 1,
                k == 1 ==> bound == 0x80,
                k == 2 ==> bound == 0x4000,
                k == 3 ==> bound == 0x20_0000,
                k == 4 ==> bound == 0x1000_0000,
                k == 5 ==> bound == 0x8_0000_0000,
                k == 6 ==> bound == 0x400_0000_0000,
                k == 7 ==> bound == 0x2_0000_0000_0000,
                k == 8 ==> bound == 0x100_0000_0000_0000,
                uintvar_read(s).0 == uintvar_of(s.skip(k as int), (8 - k) as nat, value as nat).0,
                uintvar_read(s).1 == uintvar_of(s.skip(k as int), (8 - k) as nat, value as nat).1
                    + k,
            decreases 8 - k,
        {
            match self.u8() {
                None => {
                    return None;
                },
                Some(b) => {
                    assert(s.skip(k as int).skip(1) =~= s.skip(k + 1));
                    value = value * 128 + (b % 128) as u64;
                    k += 1;
                    proof {
                        bound = bound * 128;
                    }
                    if b < 0x80 {
                        return Some(value);
                    }
                },
            }
        }
        None
    }

    /// NUL-terminated text, with the optional 0x7f quote stripped.
    pub fn text_string(&mut self) -> (r: Option<String>)
        ensures
            text::opt_text(r) == text_read(old(self).rest()).0,
            final(self).advanced(old(self), text_read(old(self).rest()).1),
    {
        let ghost s = self.rest();
        assert(s.skip(0) =~= s);
        match self.peek() {
            Some(b) => {
                if b == 0x7f {
                    self.advance(1);
                }
            },
            None => {
                return None;
            },
        }
        let ghost t = self.rest();
        let start = self.pos;
        let mut n: usize = 0;
        let total = self.data.len();
        while start + n < total && self.data[start + n] != 0
            invariant
                total == self.data@.len(),
                start <= self.data@.len(),
                start + n <= self.data@.len(),
                t == self.data@.skip(start as int),
                forall|j: int| 0 <= j < n ==> t[j] != 0,
            decreases self.data@.len() - n,
        {
            n += 1;
        }
        proof {
            lemma_find_zero_unique(t, n as int);
        }
        let part = vstd::slice::slice_subrange(self.data, start, start + n);
        assert(part@ =~= t.take(n as int));
        if start + n < total {
            self.advance(n + 1);
            return Some(text::lossy_text(part));
        }
        assert(t.take(n as int) =~= t);
        if n > 0 {
            self.advance(n);
            return Some(text::lossy_text(part));
        }
        None
    }

    /// Short-length (0..30) or 0x1f and a uintvar.
    pub fn value_length(&mut self) -> (r: Option<usize>)
        ensures
            text::opt_nat_usize(r) == length_read(old(self).rest()).0,
            final(self).advanced(old(self), length_read(old(self).rest()).1),
    {
        match self.peek() {
            None => None,
            Some(b) => if b <= 30 {
                self.advance(1);
                Some(b as usize)
            } else if b == 0x1f {
                self.advance(1);
                match self.uintvar() {
                    // Saturate, so that a narrow machine word cannot wrap the length into
                    // something small.
                    Some(v) => if v <= usize::MAX as u64 {
                        Some(v as usize)
                    } else {
                        Some(usize::MAX)
                    },
                    None => None,
                }
            } else {
                None
            },
        }
    }

    /// Value length that is guaranteed to fit in what is left of the buffer.
    pub fn bounded_value_length(&mut self) -> (r: Option<usize>)
        ensures
            text::opt_nat_usize(r) == bounded_read(old(self).rest()).0,
            final(self).advanced(old(self), bounded_read(old(self).rest()).1),
            r.is_some() ==> r.unwrap() <= final(self).rest().len(),
    {
        proof {
            lemma_length_bound(self.rest());
        }
        match self.value_length() {
            Some(len) => {
                let left = self.remaining();
                if len <= left {
                    Some(len)
                } else {
                    Some(left)
                }
            },
            None => None,
        }
    }

    /// The next `len` bytes as a reader of their own.
    pub(crate) fn inner(&mut self, len: usize) -> (r: Reader<'a>)
        requires
            len <= old(self).rest().len(),
        ensures
            final(self).advanced(old(self), len as nat),
            final(self).rest() == old(self).rest().skip(len as int),
            r.rest() == old(self).rest().take(len as int),
            r.pos == 0,
            r.data@ == r.rest(),
    {
        match self.take(len) {
            Some(b) => Reader::new(b),
            None => Reader::new(self.data),
        }
    }

    /// Long-integer: length byte followed by that many big-endian bytes.
    pub fn long_int(&mut self) -> (r: Option<u64>)
        ensures
            opt_u64(r) == long_read(old(self).rest()).0,
            final(self).advanced(old(self), long_read(old(self).rest()).1),
    {
        let ghost s = self.rest();
        let len = match self.u8() {
            Some(b) => b as usize,
            None => {
                return None;
            },
        };
        if len == 0 || len > 8 {
            return None;
        }
        match self.take(len) {
            None => None,
            Some(bytes) => {
                let mut value: u64 = 0;
                let mut k: usize = 0;
                let ghost mut bound: int = 1;
                while k < len
                    invariant
                        k <= len <= 8,
                        bytes@.len() == len,
                        value == big_endian(bytes@.take(k as int)),
                        value < bound,
                        k == 0 ==> bound == 1,
                        k == 1 ==> bound == 0x100,
                        k == 2 ==> bound == 0x1_0000,
                        k == 3 ==> bound == 0x100_0000,
                        k == 4 ==> bound == 0x1_0000_0000,
                        k == 5 ==> bound == 0x100_0000_0000,
                        k == 6 ==> bound == 0x1_0000_0000_0000,
                        k == 7 ==> bound == 0x100_0000_0000_0000,
                        k == 8 ==> bound == 0x1_0000_0000_0000_0000,
                    decreases len - k,
                {
                    value = value * 256 + bytes[k] as u64;
                    k += 1;
                    proof {
                        bound = bound * 256;
                        assert(bytes@.take(k as int).drop_last() =~= bytes@.take(k - 1));
                    }
                }
                assert(bytes@.take(k as int) =~= s.subrange(1, 1 + len));
                Some(value)
            },
        }
    }

    /// Short-integer (high bit set) or long-integer.
    pub fn integer_value(&mut self) -> (r: Option<u64>)
        ensures
            opt_u64(r) == integer_read(old(self).rest()).0,
            final(self).advanced(old(self), integer_read(old(self).rest()).1),
    {
        match self.peek() {
            None => None,
            Some(b) => if b >= 0x80 {
                self.advance(1);
                Some((b - 0x80) as u64)
            } else {
                self.long_int()
            },
        }
    }

    /// Encoded-string-value: plain text, or length, charset and text.
    pub fn encoded_string(&mut self) -> (r: Option<String>)
        requires
            decodable(old(self).rest().len()),
        ensures
            text::opt_text(r) == encoded_read(old(self).rest()).0,
            final(self).advanced(old(self), encoded_read(old(self).rest()).1),
    {
        let ghost s = self.rest();
        proof {
            lemma_length_bound(s);
        }
        match self.peek() {
            None => None,
            Some(b) => if b >= 0x20 {
                self.text_string()
            } else {
                match self.bounded_value_length() {
                    None => None,
                    Some(len) => {
                        let ghost n = bounded_read(s).1;
                        assert(self.rest() =~= s.skip(n as int));
                        let mut inner = self.inner(len);
                        assert(inner.rest() =~= s.subrange(n as int, (n + len) as int));
                        Some(charset_string(&mut inner))
                    },
                }
            },
        }
    }

    /// Content-type value: either a bare well-known type or text, or a length-prefixed type with
    /// parameters.
    pub fn content_type(&mut self) -> (r: Option<(String, Vec<(String, String)>)>)
        requires
            decodable(old(self).rest().len()),
        ensures
            opt_type(r) == type_read(old(self).rest()).0,
            final(self).advanced(old(self), type_read(old(self).rest()).1),
    {
        let ghost s = self.rest();
        proof {
            lemma_length_bound(s);
        }
        let b = match self.peek() {
            None => {
                return None;
            },
            Some(b) => b,
        };
        if b >= 0x80 {
            self.advance(1);
            let params: Vec<(String, String)> = Vec::new();
            assert(text::pairs(params@) =~= Seq::<(Seq<char>, Seq<char>)>::empty());
            return Some((content_type_name(b - 0x80), params));
        }
        if b >= 0x20 {
            let params: Vec<(String, String)> = Vec::new();
            assert(text::pairs(params@) =~= Seq::<(Seq<char>, Seq<char>)>::empty());
            return match self.text_string() {
                Some(t) => Some((t, params)),
                None => None,
            };
        }
        match self.bounded_value_length() {
            None => None,
            Some(len) => {
                let ghost n = bounded_read(s).1;
                assert(self.rest() =~= s.skip(n as int));
                let mut inner = self.inner(len);
                assert(inner.rest() =~= s.subrange(n as int, (n + len) as int));
                let ghost whole = inner.rest();
                let b = match inner.peek() {
                    None => {
                        return None;
                    },
                    Some(b) => b,
                };
                let name = if b >= 0x80 {
                    inner.advance(1);
                    content_type_name(b - 0x80)
                } else {
                    proof {
                        lemma_text_bound(whole);
                    }
                    match inner.text_string() {
                        None => {
                            return None;
                        },
                        Some(t) => {
                            assert(inner.rest() =~= whole.skip(text_read(whole).1 as int));
                            t
                        },
                    }
                };
                let params = inner.parameters();
                Some((name, params))
            },
        }
    }

    /// Parameters to the end of the bytes, or to the first that cannot be read.
    fn parameters(&mut self) -> (r: Vec<(String, String)>)
        requires
            decodable(old(self).rest().len()),
        ensures
            text::pairs(r@) == params_read(old(self).rest()),
    {
        let ghost s = self.rest();
        let mut params: Vec<(String, String)> = Vec::new();
        assert(text::pairs(params@) + params_read(self.rest()) =~= params_read(s));
        while !self.eof()
            invariant
                decodable(self.rest().len()),
                s == old(self).rest(),
                text::pairs(params@) + params_read(self.rest()) == params_read(s),
            decreases self.rest().len(),
        {
            let ghost before = params@;
            let ghost r0 = self.rest();
            proof {
                lemma_param_bound(r0);
            }
            match self.parameter() {
                None => {
                    assert(params_read(r0) =~= Seq::<(Seq<char>, Seq<char>)>::empty());
                    assert(text::pairs(params@) =~= params_read(s));
                    return params;
                },
                Some((k, v)) => {
                    assert(self.rest() =~= r0.skip(param_read(r0).1 as int));
                    params.push((k, v));
                    proof {
                        assert(text::pairs(params@) =~= text::pairs(before).push((k@, v@)));
                        assert(text::pairs(before) + params_read(r0) =~= text::pairs(params@)
                            + params_read(self.rest()));
                    }
                },
            }
        }
        assert(params_read(self.rest()) =~= Seq::<(Seq<char>, Seq<char>)>::empty());
        assert(text::pairs(params@) =~= params_read(s));
        params
    }

    /// The value of a parameter with a well-known name.
    fn param_value(&mut self, code: u8) -> (r: String)
        requires
            decodable(old(self).rest().len()),
        ensures
            r@ == param_value_read(code, old(self).rest()).0,
            final(self).advanced(old(self), param_value_read(code, old(self).rest()).1),
    {
        if code == 0x10 {
            // No value: reading one would eat the next parameter's first byte.
            String::new()
        } else if code == 0 {
            match self.uintvar() {
                Some(v) => text::decimal(v),
                None => String::new(),
            }
        } else if code == 0x02 || code == 0x0e || code == 0x16 {
            match self.integer_value() {
                Some(v) => text::decimal(v),
                None => String::new(),
            }
        } else if code == 0x01 {
            let numeric = match self.peek() {
                Some(p) => p >= 0x80 || p < 0x20,
                None => false,
            };
            if numeric {
                match self.integer_value() {
                    Some(v) => text::owned(charset_for(low_word(v))),
                    None => String::new(),
                }
            } else {
                match self.text_string() {
                    Some(t) => t,
                    None => String::new(),
                }
            }
        } else {
            match self.encoded_string() {
                Some(t) => t,
                None => String::new(),
            }
        }
    }

    /// One typed parameter of a content type.
    pub fn parameter(&mut self) -> (r: Option<(String, String)>)
        requires
            decodable(old(self).rest().len()),
        ensures
            match r {
                Some((k, v)) => param_read(old(self).rest()).0 == Some((k@, v@)),
                None => param_read(old(self).rest()).0.is_none(),
            },
            final(self).advanced(old(self), param_read(old(self).rest()).1),
    {
        let ghost s = self.rest();
        let b = match self.peek() {
            None => {
                return None;
            },
            Some(b) => b,
        };
        if b >= 0x80 {
            self.advance(1);
            let code: u8 = b - 0x80;
            let name = match param_name(code) {
                Some(n) => text::owned(n),
                None => text::owned("x-unknown"),
            };
            let value = self.param_value(code);
            Some((name, value))
        } else {
            proof {
                lemma_text_bound(s);
            }
            match self.text_string() {
                None => None,
                Some(name) => {
                    assert(self.rest() =~= s.skip(text_read(s).1 as int));
                    let value = match self.encoded_string() {
                        Some(t) => t,
                        None => String::new(),
                    };
                    Some((name, value))
                },
            }
        }
    }

    /// Skip a header value of unknown type.
    pub fn skip_value(&mut self) -> (r: Option<()>)
        ensures
            r.is_some() == skip_read(old(self).rest()).0,
            final(self).advanced(old(self), skip_read(old(self).rest()).1),
    {
        let ghost s = self.rest();
        proof {
            lemma_length_bound(s);
        }
        match self.peek() {
            None => None,
            Some(b) => if b <= 0x1f {
                match self.bounded_value_length() {
                    None => None,
                    Some(len) => {
                        self.advance(len);
                        Some(())
                    },
                }
            } else if b >= 0x80 {
                self.advance(1);
                Some(())
            } else {
                match self.text_string() {
                    Some(_) => Some(()),
                    None => None,
                }
            },
        }
    }
}

/// The low 32 bits.
fn low_word(v: u64) -> (r: u32)
    ensures
        r as nat == v as nat % 0x1_0000_0000,
{
    (v % 0x1_0000_0000) as u32
}

/// The inside of an encoded string: a charset, then bytes in it.
fn charset_string(inner: &mut Reader<'_>) -> (r: String)
    requires
        decodable(old(inner).rest().len()),
        old(inner).pos == 0,
    ensures
        r@ == charset_read(old(inner).rest()),
{
    let ghost s = inner.rest();
    proof {
        law_reads_stay_inside(s);
    }
    let mib: u32 = match inner.integer_value() {
        Some(v) => low_word(v),
        None => 106,
    };
    let charset = charset_for(mib);
    let raw = vstd::slice::slice_subrange(inner.data, inner.pos, inner.data.len());
    assert(raw@ =~= s.skip(integer_read(s).1 as int));
    // UTF-16 terminates with two NUL bytes, everything else with one.
    let wide = text::starts_with(text::chars_of(charset).as_slice(), "UTF-16");
    let t: usize = if wide {
        2
    } else {
        1
    };
    let n = raw.len();
    let terminated = n >= t && raw[n - 1] == 0 && (t == 1 || raw[n - 2] == 0);
    let cut = if terminated {
        vstd::slice::slice_subrange(raw, 0, n - t)
    } else {
        raw
    };
    proof {
        if terminated {
            assert(forall|i: int| n - t <= i < n ==> raw@[i] == 0);
            assert(cut@ =~= raw@.take(n - t));
        } else if n >= t {
            if raw@[n - 1] == 0 {
                assert(t == 2 && raw@[n - 2] != 0);
            }
        }
        assert(cut@ == unterminated(raw@, charset@));
    }
    decode_or_utf8(charset, cut)
}

// ------------------------------------------------------------------ writing, mathematically

/// The leading groups of seven bits of a number, each marked as continued.
pub open spec fn uintvar_high(v: nat) -> Seq<u8>
    decreases v,
{
    if v == 0 {
        seq![]
    } else {
        uintvar_high(v / 128).push((128 + v % 128) as u8)
    }
}

/// The shortest uintvar of a number.
pub open spec fn uintvar_bytes(v: nat) -> Seq<u8> {
    uintvar_high(v / 128).push((v % 128) as u8)
}

/// A text and a zero byte, behind a quote where the first byte would be taken for a binary value.
pub open spec fn text_bytes(t: Seq<char>) -> Seq<u8> {
    let b = encode_utf8(t);
    (if b.len() > 0 && b[0] >= 128 {
        seq![0x7fu8]
    } else {
        seq![]
    }) + b.push(0)
}

pub open spec fn length_bytes(n: nat) -> Seq<u8> {
    if n <= 30 {
        seq![n as u8]
    } else {
        seq![0x1fu8] + uintvar_bytes(n)
    }
}

/// The shortest big-endian bytes of a number; none for zero.
pub open spec fn magnitude(v: nat) -> Seq<u8>
    decreases v,
{
    if v == 0 {
        seq![]
    } else {
        magnitude(v / 256).push((v % 256) as u8)
    }
}

pub open spec fn long_bytes(v: nat) -> Seq<u8> {
    if v == 0 {
        seq![1u8, 0u8]
    } else {
        seq![magnitude(v).len() as u8] + magnitude(v)
    }
}

pub open spec fn integer_bytes(v: nat) -> Seq<u8> {
    if v <= 127 {
        seq![(128 + v) as u8]
    } else {
        long_bytes(v)
    }
}

/// Plain text where it is ASCII; otherwise a length, the charset UTF-8 and the text.
pub open spec fn encoded_bytes(t: Seq<char>) -> Seq<u8> {
    if is_ascii_chars(t) {
        text_bytes(t)
    } else {
        let inner = seq![0xeau8] + encode_utf8(t).push(0);
        length_bytes(inner.len()) + inner
    }
}

// ------------------------------------------------------------------ writing

fn write_uintvar_high(out: &mut Vec<u8>, value: u64)
    ensures
        final(out)@ == old(out)@ + uintvar_high(value as nat),
    decreases value,
{
    if value > 0 {
        write_uintvar_high(out, value / 128);
        out.push((128 + value % 128) as u8);
    }
    assert(out@ =~= old(out)@ + uintvar_high(value as nat));
}

pub fn write_uintvar(out: &mut Vec<u8>, value: u64)
    ensures
        final(out)@ == old(out)@ + uintvar_bytes(value as nat),
{
    write_uintvar_high(out, value / 128);
    out.push((value % 128) as u8);
    assert(out@ =~= old(out)@ + uintvar_bytes(value as nat));
}

pub fn write_text_string(out: &mut Vec<u8>, t: &str)
    ensures
        final(out)@ == old(out)@ + text_bytes(t@),
{
    let b = t.as_bytes();
    // Quote text that would otherwise be mistaken for a binary value.
    if b.len() > 0 && b[0] >= 0x80 {
        out.push(0x7f);
    }
    text::append_bytes(out, b);
    out.push(0);
    assert(out@ =~= old(out)@ + text_bytes(t@));
}

pub fn write_value_length(out: &mut Vec<u8>, len: usize)
    ensures
        final(out)@ == old(out)@ + length_bytes(len as nat),
{
    if len <= 30 {
        out.push(len as u8);
    } else {
        out.push(0x1f);
        write_uintvar(out, len as u64);
    }
    assert(out@ =~= old(out)@ + length_bytes(len as nat));
}

/// Encoded-string-value with an explicit UTF-8 charset, which every MMSC understands and which
/// keeps non-ASCII subjects intact.
pub fn write_encoded_string(out: &mut Vec<u8>, t: &str)
    ensures
        final(out)@ == old(out)@ + encoded_bytes(t@),
{
    if t.is_ascii() {
        write_text_string(out, t);
        return;
    }
    let mut inner: Vec<u8> = Vec::new();
    write_integer_value(&mut inner, CHARSET_UTF8);
    text::append_bytes(&mut inner, t.as_bytes());
    inner.push(0);
    assert(inner@ =~= seq![0xeau8] + encode_utf8(t@).push(0));
    write_value_length(out, inner.len());
    text::append_bytes(out, inner.as_slice());
    assert(out@ =~= old(out)@ + encoded_bytes(t@));
}

/// IANA MIBenum for UTF-8.
pub const CHARSET_UTF8: u64 = 106;

pub fn write_short_int(out: &mut Vec<u8>, value: u8)
    ensures
        final(out)@ == old(out)@.push((128 + value % 128) as u8),
{
    out.push(0x80 + value % 128);
}

/// Integer-value: the canonical form is a short integer whenever the value fits in seven bits.
pub fn write_integer_value(out: &mut Vec<u8>, value: u64)
    ensures
        final(out)@ == old(out)@ + integer_bytes(value as nat),
{
    if value <= 127 {
        out.push(0x80 + value as u8);
        assert(out@ =~= old(out)@ + integer_bytes(value as nat));
    } else {
        write_long_int(out, value);
    }
}

fn write_magnitude(out: &mut Vec<u8>, value: u64)
    ensures
        final(out)@ == old(out)@ + magnitude(value as nat),
    decreases value,
{
    if value > 0 {
        write_magnitude(out, value / 256);
        out.push((value % 256) as u8);
    }
    assert(out@ =~= old(out)@ + magnitude(value as nat));
}

pub fn write_long_int(out: &mut Vec<u8>, value: u64)
    ensures
        final(out)@ == old(out)@ + long_bytes(value as nat),
{
    if value == 0 {
        out.push(1);
        out.push(0);
        assert(out@ =~= old(out)@ + long_bytes(0));
        return;
    }
    let mut bytes: Vec<u8> = Vec::new();
    write_magnitude(&mut bytes, value);
    assert(bytes@ =~= magnitude(value as nat));
    proof {
        lemma_magnitude_len(value as nat);
    }
    out.push(bytes.len() as u8);
    text::append_bytes(out, bytes.as_slice());
    assert(out@ =~= old(out)@ + long_bytes(value as nat));
}

proof fn lemma_magnitude_len(v: nat)
    requires
        v < 0x1_0000_0000_0000_0000,
    ensures
        magnitude(v).len() <= 8,
{
    reveal_with_fuel(magnitude, 10);
    assert(v / 256 < 0x100_0000_0000_0000);
    assert(v / 256 / 256 < 0x1_0000_0000_0000);
    assert(v / 256 / 256 / 256 < 0x100_0000_0000);
    assert(v / 256 / 256 / 256 / 256 < 0x1_0000_0000);
    assert(v / 256 / 256 / 256 / 256 / 256 < 0x100_0000);
    assert(v / 256 / 256 / 256 / 256 / 256 / 256 < 0x1_0000);
    assert(v / 256 / 256 / 256 / 256 / 256 / 256 / 256 < 0x100);
    assert(v / 256 / 256 / 256 / 256 / 256 / 256 / 256 / 256 == 0);
}

// ------------------------------------------------------------------ what is written reads back

proof fn lemma_uintvar_high(v: nat, left: nat, t: Seq<u8>)
    requires
        uintvar_high(v).len() <= left,
    ensures
        ({
            let x = uintvar_of(t, (left - uintvar_high(v).len()) as nat, v);
            uintvar_of(uintvar_high(v) + t, left, 0) == (x.0, x.1 + uintvar_high(v).len())
        }),
    decreases v,
{
    if v == 0 {
        assert(uintvar_high(v) + t =~= t);
    } else {
        let h = uintvar_high(v / 128);
        let b = (128 + v % 128) as u8;
        let t1 = seq![b] + t;
        assert(uintvar_high(v) + t =~= h + t1);
        lemma_uintvar_high(v / 128, left, t1);
        assert(t1.skip(1) =~= t);
        assert(b as nat % 128 == v % 128);
        assert((v / 128) * 128 + v % 128 == v);
    }
}

proof fn lemma_uintvar_high_len(v: nat)
    requires
        v < 0x2_0000_0000_0000,
    ensures
        uintvar_high(v).len() <= 7,
{
    reveal_with_fuel(uintvar_high, 9);
    assert(v / 128 < 0x400_0000_0000);
    assert(v / 128 / 128 < 0x8_0000_0000);
    assert(v / 128 / 128 / 128 < 0x1000_0000);
    assert(v / 128 / 128 / 128 / 128 < 0x20_0000);
    assert(v / 128 / 128 / 128 / 128 / 128 < 0x4000);
    assert(v / 128 / 128 / 128 / 128 / 128 / 128 < 0x80);
    assert(v / 128 / 128 / 128 / 128 / 128 / 128 / 128 == 0);
}

/// A uintvar of up to 56 bits reads back as the number it was written from, whatever follows it.
pub proof fn law_uintvar_round_trip(v: nat, tail: Seq<u8>)
    requires
        v < 0x100_0000_0000_0000,
    ensures
        uintvar_read(uintvar_bytes(v) + tail) == (Some(v), uintvar_bytes(v).len()),
{
    let h = uintvar_high(v / 128);
    let b = (v % 128) as u8;
    lemma_uintvar_high_len(v / 128);
    assert(uintvar_bytes(v) + tail =~= h + (seq![b] + tail));
    lemma_uintvar_high(v / 128, 8, seq![b] + tail);
    assert(b as nat % 128 == v % 128);
    assert((v / 128) * 128 + v % 128 == v);
}

proof fn lemma_uintvar_high_continued(v: nat)
    ensures
        forall|i: int| 0 <= i < uintvar_high(v).len() ==> #[trigger] uintvar_high(v)[i] >= 128,
    decreases v,
{
    if v > 0 {
        lemma_uintvar_high_continued(v / 128);
        assert forall|i: int| 0 <= i < uintvar_high(v).len() implies #[trigger] uintvar_high(v)[i]
            >= 128 by {
            if i < uintvar_high(v).len() - 1 {
                assert(uintvar_high(v)[i] == uintvar_high(v / 128)[i]);
            }
        }
    }
}

proof fn lemma_uintvar_high_long(v: nat)
    requires
        v >= 0x2_0000_0000_0000,
    ensures
        uintvar_high(v).len() >= 8,
{
    reveal_with_fuel(uintvar_high, 9);
    assert(v / 128 >= 0x400_0000_0000);
    assert(v / 128 / 128 >= 0x8_0000_0000);
    assert(v / 128 / 128 / 128 >= 0x1000_0000);
    assert(v / 128 / 128 / 128 / 128 >= 0x20_0000);
    assert(v / 128 / 128 / 128 / 128 / 128 >= 0x4000);
    assert(v / 128 / 128 / 128 / 128 / 128 / 128 >= 0x80);
    assert(v / 128 / 128 / 128 / 128 / 128 / 128 / 128 >= 1);
}

proof fn lemma_endless(s: Seq<u8>, left: nat, acc: nat)
    requires
        s.len() >= left,
        forall|i: int| 0 <= i < left ==> #[trigger] s[i] >= 128,
    ensures
        uintvar_of(s, left, acc).0.is_none(),
    decreases left,
{
    if left > 0 {
        assert(s[0] >= 128);
        assert forall|i: int| 0 <= i < left - 1 implies #[trigger] s.skip(1)[i] >= 128 by {
            assert(s.skip(1)[i] == s[i + 1]);
        }
        lemma_endless(s.skip(1), (left - 1) as nat, acc * 128 + s[0] as nat % 128);
    }
}

/// A uintvar of more than 56 bits is not read: so far and no further does anything read back that is
/// written behind its length.
pub proof fn law_a_longer_uintvar_is_not_read(v: nat, tail: Seq<u8>)
    requires
        v >= 0x100_0000_0000_0000,
    ensures
        uintvar_read(uintvar_bytes(v) + tail).0.is_none(),
        length_read(length_bytes(v) + tail).0.is_none(),
{
    let h = uintvar_high(v / 128);
    let s = uintvar_bytes(v) + tail;
    lemma_uintvar_high_long(v / 128);
    lemma_uintvar_high_continued(v / 128);
    assert forall|i: int| 0 <= i < 8 implies #[trigger] s[i] >= 128 by {
        assert(s[i] == h[i]);
    }
    lemma_endless(s, 8, 0);
    assert((length_bytes(v) + tail).skip(1) =~= s);
}

/// A value length reads back as the length it was written from, whatever follows it.
pub proof fn law_length_round_trip(n: nat, tail: Seq<u8>)
    requires
        n < 0x100_0000_0000_0000,
        n <= usize::MAX,
    ensures
        length_read(length_bytes(n) + tail) == (Some(n), length_bytes(n).len()),
{
    let s = length_bytes(n) + tail;
    if n > 30 {
        law_uintvar_round_trip(n, tail);
        assert(s.skip(1) =~= uintvar_bytes(n) + tail);
    }
}

proof fn lemma_magnitude_value(v: nat)
    ensures
        big_endian(magnitude(v)) == v,
        v > 0 ==> magnitude(v).len() > 0,
    decreases v,
{
    if v > 0 {
        lemma_magnitude_value(v / 256);
        assert(magnitude(v).drop_last() =~= magnitude(v / 256));
    }
}

/// Any 64-bit number written as a long integer reads back, whatever follows it.
pub proof fn law_long_int_round_trip(v: u64, tail: Seq<u8>)
    ensures
        long_read(long_bytes(v as nat) + tail) == (Some(v as nat), long_bytes(v as nat).len()),
{
    let s = long_bytes(v as nat) + tail;
    lemma_magnitude_len(v as nat);
    lemma_magnitude_value(v as nat);
    if v == 0 {
        assert(s.subrange(1, 2) =~= seq![0u8]);
        reveal_with_fuel(big_endian, 2);
        assert(seq![0u8].drop_last() =~= Seq::<u8>::empty());
    } else {
        let m = magnitude(v as nat);
        assert(s[0] == m.len());
        assert(s.subrange(1, 1 + m.len() as int) =~= m);
    }
}

/// Any 64-bit number written as an integer value reads back, whatever follows it.
pub proof fn law_integer_round_trip(v: u64, tail: Seq<u8>)
    ensures
        integer_read(integer_bytes(v as nat) + tail) == (
            Some(v as nat),
            integer_bytes(v as nat).len(),
        ),
{
    law_long_int_round_trip(v, tail);
    if v > 127 {
        lemma_magnitude_len(v as nat);
        lemma_magnitude_value(v as nat);
    }
}

/// A number up to 127 is one byte: UTF-8 is always announced as 0xea.
pub proof fn law_small_integers_are_short(v: nat)
    requires
        v <= 127,
    ensures
        integer_bytes(v).len() == 1,
        integer_bytes(106) == seq![0xeau8],
{
}

proof fn lemma_no_zero(t: Seq<char>)
    requires
        !t.contains('\0'),
    ensures
        forall|i: int| 0 <= i < encode_utf8(t).len() ==> encode_utf8(t)[i] != 0,
{
    assert forall|i: int| 0 <= i < encode_utf8(t).len() implies encode_utf8(t)[i] != 0 by {
        if encode_utf8(t)[i] == 0 {
            text::lemma_low_byte(t, i);
            let j = choose|j: int|
                0 <= j < t.len() && (#[trigger] t[j]) as u32 == encode_utf8(t)[i] as u32;
            assert(t[j] as u32 == 0);
            char_u32_cast(t[j], 0);
            assert(t[j] == '\0');
        }
    }
}

/// A text string reads back as the text, whatever follows it, unless the text holds a NUL or
/// starts with a DEL, which is taken for the quote.
pub proof fn law_text_round_trip(t: Seq<char>, tail: Seq<u8>)
    requires
        !t.contains('\0'),
        t.len() > 0 ==> t[0] != '\x7f',
    ensures
        text_read(text_bytes(t) + tail) == (Some(t), text_bytes(t).len()),
{
    let b = encode_utf8(t);
    let s = text_bytes(t) + tail;
    lemma_no_zero(t);
    text::law_utf8_reads_back(t);
    if t.len() > 0 {
        text::lemma_first_byte(t);
    } else {
        assert(b =~= Seq::<u8>::empty());
    }
    let q: int = if b.len() > 0 && b[0] >= 128 {
        1
    } else {
        0
    };
    assert(s[0] == 0x7f <==> q == 1);
    let r = s.skip(q);
    assert(r =~= b + (seq![0u8] + tail));
    lemma_find_zero_unique(r, b.len() as int);
    assert(r.take(b.len() as int) =~= b);
}

pub proof fn lemma_byte_order_mark(t: Seq<char>)
    requires
        t.len() > 0 ==> t[0] != '\u{feff}',
    ensures
        plain_utf8(encode_utf8(t)),
{
    let b = encode_utf8(t);
    text::law_utf8_reads_back(t);
    if b.len() >= 3 && b[0] == 0xef && b[1] == 0xbb && b[2] == 0xbf {
        if t.len() == 0 {
            assert(b =~= Seq::<u8>::empty());
        }
        encode_utf8_first_scalar(t);
        let (x, y, z) = (b[0], b[1], b[2]);
        assert(codepoint_width_3(x, y, z) == 0xfeff) by (bit_vector)
            requires
                x == 0xef,
                y == 0xbb,
                z == 0xbf,
        ;
        assert(t[0] as u32 == 0xfeff);
    }
}

/// A text that an encoded string can carry: an ASCII one unless it holds a NUL or starts with a
/// control character or DEL, any other unless it starts with a byte order mark.
pub open spec fn encodable(t: Seq<char>) -> bool {
    &&& is_ascii_chars(t) ==> !t.contains('\0')
    &&& is_ascii_chars(t) && t.len() > 0 ==> t[0] >= ' ' && t[0] != '\x7f'
    &&& !is_ascii_chars(t) ==> t[0] != '\u{feff}'
    &&& has_writable_size(t)
}

/// What `write_encoded_string` writes reads back as the text, whatever follows it.
pub proof fn law_encoded_round_trip(t: Seq<char>, tail: Seq<u8>)
    requires
        encodable(t),
    ensures
        encoded_read(encoded_bytes(t) + tail) == (Some(t), encoded_bytes(t).len()),
{
    let s = encoded_bytes(t) + tail;
    let b = encode_utf8(t);
    text::law_utf8_reads_back(t);
    reveal_strlit("UTF-8");
    reveal_strlit("UTF-16");
    if is_ascii_chars(t) && t.len() > 0 {
        text::lemma_first_byte(t);
        law_text_round_trip(t, tail);
    } else if is_ascii_chars(t) {
        assert(b =~= Seq::<u8>::empty());
        assert(s[0] == 0);
        assert(s.subrange(1, 1) =~= Seq::<u8>::empty());
        let e = Seq::<u8>::empty();
        assert(e.skip(0) =~= e);
        lemma_byte_order_mark(t);
        assert(charset_read(e) =~= t);
    } else {
        let inner = seq![0xeau8] + b.push(0);
        assert(s =~= length_bytes(inner.len()) + (inner + tail));
        law_length_round_trip(inner.len(), inner + tail);
        let n = length_bytes(inner.len()).len();
        assert(s.subrange(n as int, (n + inner.len()) as int) =~= inner);
        assert(inner.skip(1) =~= b.push(0));
        assert(b.push(0).take(b.len() as int) =~= b);
        lemma_byte_order_mark(t);
        assert(unterminated(b.push(0), "UTF-8"@) == b);
        assert(charset_read(inner) == t);
        assert(s[0] < 0x20);
    }
}

/// A text that a text string can carry where an encoded string may stand too.
pub open spec fn legible(t: Seq<char>) -> bool {
    !t.contains('\0') && (t.len() > 0 ==> t[0] >= ' ' && t[0] != '\x7f')
}

/// A control character: of ASCII, or of the block that follows it.
pub open spec fn is_control(c: char) -> bool {
    c < ' ' || '\x7f' <= c <= '\u{9f}'
}

/// A text without control characters that does not start with a byte order mark.
pub open spec fn is_clean(t: Seq<char>) -> bool {
    &&& forall|i: int| 0 <= i < t.len() ==> !is_control(#[trigger] t[i])
    &&& t.len() > 0 ==> t[0] != '\u{feff}'
}

/// A text whose encoded form has a length that can be read: one in ASCII is written without its
/// length, any other behind a uintvar.
pub open spec fn has_writable_size(t: Seq<char>) -> bool {
    is_ascii_chars(t) || encode_utf8(t).len() + 2 < 0x100_0000_0000_0000 && encode_utf8(t).len() + 2
        <= usize::MAX
}

/// A clean text is carried by every form of text there is, in whatever script it is.
pub proof fn law_a_clean_text_is_carried(t: Seq<char>, tail: Seq<u8>)
    requires
        is_clean(t),
    ensures
        legible(t),
        text_read(text_bytes(t) + tail) == (Some(t), text_bytes(t).len()),
        encoded_read(text_bytes(t) + tail) == (Some(t), text_bytes(t).len()),
        has_writable_size(t) ==> encodable(t) && encoded_read(encoded_bytes(t) + tail) == (
            Some(t),
            encoded_bytes(t).len(),
        ),
{
    assert(!t.contains('\0')) by {
        if t.contains('\0') {
            let i = choose|i: int| 0 <= i < t.len() && t[i] == '\0';
            assert(is_control(t[i]));
        }
    }
    if t.len() > 0 {
        assert(!is_control(t[0]));
    }
    law_text_round_trip(t, tail);
    law_text_reads_as_encoded(t, tail);
    if has_writable_size(t) {
        law_encoded_round_trip(t, tail);
    }
}

proof fn lemma_printable(c: char)
    requires
        c >= ' ',
    ensures
        c as u32 >= 0x20,
{
}

/// A text string reads back as an encoded string too.
pub proof fn law_text_reads_as_encoded(t: Seq<char>, tail: Seq<u8>)
    requires
        legible(t),
    ensures
        encoded_read(text_bytes(t) + tail) == (Some(t), text_bytes(t).len()),
{
    let s = text_bytes(t) + tail;
    let b = encode_utf8(t);
    law_text_round_trip(t, tail);
    if t.len() > 0 {
        text::lemma_first_byte(t);
        assert(b[0] >= 128 ==> s[0] == 0x7f);
        assert(b[0] < 128 ==> s[0] == b[0]);
        lemma_printable(t[0]);
        assert(s[0] >= 0x20);
    } else {
        reveal_strlit("UTF-8");
        reveal_strlit("UTF-16");
        assert(b =~= Seq::<u8>::empty());
        assert(s[0] == 0);
        assert(s.subrange(1, 1) =~= Seq::<u8>::empty());
        let e = Seq::<u8>::empty();
        assert(e.skip(0) =~= e);
        text::law_utf8_reads_back(t);
        lemma_byte_order_mark(t);
        assert(charset_read(e) =~= t);
    }
}

} // verus!
