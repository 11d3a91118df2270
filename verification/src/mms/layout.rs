//! The bytes of multimedia messages, as the encapsulation protocol lays them out.
use vstd::prelude::*;
use vstd::utf8::encode_utf8;

use super::pdu;
use super::pdu::{Flow, Message, Part};
use super::wsp;
use crate::text;

verus! {

// ------------------------------------------------------------------ numbers and texts

/// A number of variable length is its digits of seven bits, the highest first, and every one but the
/// last has its high bit set.
pub proof fn law_a_variable_number_is_read(a: u8, b: u8, c: u8, d: u8, tail: Seq<u8>)
    requires
        a >= 128,
        b >= 128,
        c >= 128,
        d < 128,
    ensures
        wsp::uintvar_read(seq![d] + tail) == (Some(d as nat), 1nat),
        wsp::uintvar_read(seq![c, d] + tail) == (Some(((c - 128) * 128 + d) as nat), 2nat),
        wsp::uintvar_read(seq![b, c, d] + tail) == (
            Some(((b - 128) * 16384 + (c - 128) * 128 + d) as nat),
            3nat,
        ),
        wsp::uintvar_read(seq![a, b, c, d] + tail) == (
            Some(((a - 128) * 2097152 + (b - 128) * 16384 + (c - 128) * 128 + d) as nat),
            4nat,
        ),
{
    reveal_with_fuel(wsp::uintvar_of, 5);
    let one = seq![d] + tail;
    let two = seq![c, d] + tail;
    let three = seq![b, c, d] + tail;
    let four = seq![a, b, c, d] + tail;
    assert(two.skip(1) =~= one);
    assert(three.skip(1) =~= two);
    assert(four.skip(1) =~= three);
}

/// The same, as it is written.
pub proof fn law_a_variable_number_is_written(v: nat)
    ensures
        v < 128 ==> wsp::uintvar_bytes(v) == seq![v as u8],
        128 <= v < 16384 ==> wsp::uintvar_bytes(v) == seq![(128 + v / 128) as u8, (v % 128) as u8],
        16384 <= v < 2097152 ==> wsp::uintvar_bytes(v) == seq![
            (128 + v / 16384) as u8,
            (128 + v / 128 % 128) as u8,
            (v % 128) as u8,
        ],
{
    reveal_with_fuel(wsp::uintvar_high, 3);
    assert(v / 128 / 128 == v / 16384);
}

/// A text is its bytes in UTF-8 and a zero. One that does not begin with an ASCII character is quoted.
pub proof fn law_a_text_is_written(t: Seq<char>)
    ensures
        t.len() > 0 && (t[0] as u32) <= 0x7e ==> wsp::text_bytes(t) == encode_utf8(t) + seq![0u8],
        t.len() > 0 && (t[0] as u32) >= 0x80 ==> wsp::text_bytes(t) == seq![0x7fu8] + encode_utf8(t) + seq![
            0u8,
        ],
{
    if t.len() > 0 {
        text::lemma_first_byte(t);
        let b = encode_utf8(t);
        assert(Seq::<u8>::empty() + b.push(0) =~= b + seq![0u8]);
        assert(seq![0x7fu8] + b.push(0) =~= seq![0x7fu8] + b + seq![0u8]);
    }
}

/// A number of several bytes is their count and the bytes, the highest first.
pub proof fn law_a_long_number_is_read(a: u8, b: u8, c: u8, d: u8, tail: Seq<u8>)
    ensures
        wsp::long_read(seq![1u8, d] + tail) == (Some(d as nat), 2nat),
        wsp::long_read(seq![2u8, c, d] + tail) == (Some((c * 0x100 + d) as nat), 3nat),
        wsp::long_read(seq![3u8, b, c, d] + tail) == (
            Some((b * 0x1_0000 + c * 0x100 + d) as nat),
            4nat,
        ),
        wsp::long_read(seq![4u8, a, b, c, d] + tail) == (
            Some((a * 0x100_0000 + b * 0x1_0000 + c * 0x100 + d) as nat),
            5nat,
        ),
{
    reveal_with_fuel(wsp::big_endian, 5);
    assert((seq![1u8, d] + tail).subrange(1, 2) =~= seq![d]);
    assert((seq![2u8, c, d] + tail).subrange(1, 3) =~= seq![c, d]);
    assert((seq![3u8, b, c, d] + tail).subrange(1, 4) =~= seq![b, c, d]);
    assert((seq![4u8, a, b, c, d] + tail).subrange(1, 5) =~= seq![a, b, c, d]);
    assert(seq![d].drop_last() =~= seq![]);
    assert(seq![c, d].drop_last() =~= seq![c]);
    assert(seq![c].drop_last() =~= seq![]);
    assert(seq![b, c, d].drop_last() =~= seq![b, c]);
    assert(seq![b, c].drop_last() =~= seq![b]);
    assert(seq![b].drop_last() =~= seq![]);
    assert(seq![a, b, c, d].drop_last() =~= seq![a, b, c]);
    assert(seq![a, b, c].drop_last() =~= seq![a, b]);
    assert(seq![a, b].drop_last() =~= seq![a]);
    assert(seq![a].drop_last() =~= seq![]);
}

// ------------------------------------------------------------------ headers that are read

proof fn lemma_step(b: u8, value: Seq<u8>, rest: Seq<u8>, m: Message, m1: Message)
    requires
        b >= 128,
        pdu::field_read(b, value + rest, m) == (Flow::Continue, m1, value.len()),
    ensures
        pdu::headers_read(seq![b] + value + rest, m) == pdu::headers_read(rest, m1),
{
    let s = seq![b] + value + rest;
    assert(s.skip(1) =~= value + rest);
    assert(s.skip(1 + value.len() as int) =~= rest);
}

/// The headers whose value is a text: the transaction, the identifier of the message, and the place
/// where its content is fetched from. Each is read as it stands, and what follows is read on.
pub proof fn law_a_text_header_is_read(t: Seq<char>, rest: Seq<u8>, m: Message)
    requires
        t.len() > 0,
        0x20 <= t[0] as u32 <= 0x7e,
        !t.contains('\0'),
    ensures
        ({
            let value = encode_utf8(t) + seq![0u8];
            &&& pdu::headers_read(seq![0x98u8] + value + rest, m) == pdu::headers_read(
                rest,
                Message { transaction_id: Some(t), ..m },
            )
            &&& pdu::headers_read(seq![0x8bu8] + value + rest, m) == pdu::headers_read(
                rest,
                Message { message_id: Some(t), ..m },
            )
            &&& pdu::headers_read(seq![0x83u8] + value + rest, m) == pdu::headers_read(
                rest,
                Message { content_location: Some(t), ..m },
            )
        }),
{
    let value = encode_utf8(t) + seq![0u8];
    law_a_text_is_written(t);
    wsp::law_text_round_trip(t, rest);
    assert(wsp::text_read(value + rest) == (Some(t), value.len()));
    reveal(pdu::field_read);
    lemma_step(0x98, value, rest, m, Message { transaction_id: Some(t), ..m });
    lemma_step(0x8b, value, rest, m, Message { message_id: Some(t), ..m });
    lemma_step(0x83, value, rest, m, Message { content_location: Some(t), ..m });
}

/// The headers whose value may name a character set: the subject, the recipients, of which every one
/// is kept in its order, and the words of an answer. A plain text is read as it stands.
pub proof fn law_an_encoded_header_is_read(t: Seq<char>, rest: Seq<u8>, m: Message)
    requires
        t.len() > 0,
        0x20 <= t[0] as u32 <= 0x7e,
        !t.contains('\0'),
    ensures
        ({
            let value = encode_utf8(t) + seq![0u8];
            &&& pdu::headers_read(seq![0x96u8] + value + rest, m) == pdu::headers_read(
                rest,
                Message { subject: Some(t), ..m },
            )
            &&& pdu::headers_read(seq![0x97u8] + value + rest, m) == pdu::headers_read(
                rest,
                Message { to: m.to.push(t), ..m },
            )
            &&& pdu::headers_read(seq![0x82u8] + value + rest, m) == pdu::headers_read(
                rest,
                Message { cc: m.cc.push(t), ..m },
            )
            &&& pdu::headers_read(seq![0x93u8] + value + rest, m) == pdu::headers_read(
                rest,
                Message { response_text: Some(t), ..m },
            )
            &&& pdu::headers_read(seq![0x9au8] + value + rest, m) == pdu::headers_read(
                rest,
                Message { response_text: Some(t), ..m },
            )
        }),
{
    let value = encode_utf8(t) + seq![0u8];
    law_a_text_is_written(t);
    text::lemma_first_byte(t);
    wsp::law_text_round_trip(t, rest);
    let s = value + rest;
    assert(s[0] == encode_utf8(t)[0]);
    assert(s[0] >= 0x20);
    assert(wsp::encoded_read(s) == (Some(t), value.len()));
    reveal(pdu::field_read);
    lemma_step(0x96, value, rest, m, Message { subject: Some(t), ..m });
    lemma_step(0x97, value, rest, m, Message { to: m.to.push(t), ..m });
    lemma_step(0x82, value, rest, m, Message { cc: m.cc.push(t), ..m });
    lemma_step(0x93, value, rest, m, Message { response_text: Some(t), ..m });
    lemma_step(0x9a, value, rest, m, Message { response_text: Some(t), ..m });
}

/// The headers whose value is a byte: the kind of the message, its version, and the two that say how
/// a request went.
pub proof fn law_a_byte_header_is_read(v: u8, rest: Seq<u8>, m: Message)
    ensures
        pdu::headers_read(seq![0x8cu8, v] + rest, m) == pdu::headers_read(
            rest,
            Message { message_type: v, ..m },
        ),
        pdu::headers_read(seq![0x8du8, v] + rest, m) == pdu::headers_read(
            rest,
            Message { version: Some(v), ..m },
        ),
        pdu::headers_read(seq![0x92u8, v] + rest, m) == pdu::headers_read(
            rest,
            Message { response_status: Some(v), ..m },
        ),
        pdu::headers_read(seq![0x99u8, v] + rest, m) == pdu::headers_read(
            rest,
            Message { retrieve_status: Some(v), ..m },
        ),
{
    assert((seq![v] + rest)[0] == v);
    reveal(pdu::field_read);
    lemma_byte(0x8c, v, rest, m, Message { message_type: v, ..m });
    lemma_byte(0x8d, v, rest, m, Message { version: Some(v), ..m });
    lemma_byte(0x92, v, rest, m, Message { response_status: Some(v), ..m });
    lemma_byte(0x99, v, rest, m, Message { retrieve_status: Some(v), ..m });
}

proof fn lemma_byte(b: u8, v: u8, rest: Seq<u8>, m: Message, m1: Message)
    requires
        b >= 128,
        pdu::field_read(b, seq![v] + rest, m) == (Flow::Continue, m1, 1nat),
    ensures
        pdu::headers_read(seq![b, v] + rest, m) == pdu::headers_read(rest, m1),
{
    lemma_step(b, seq![v], rest, m, m1);
    assert(seq![b] + seq![v] + rest =~= seq![b, v] + rest);
}

/// The headers whose value is a number: the date, the size of the message, and how long it is kept,
/// which stands behind a byte that says from when that counts.
pub proof fn law_a_number_header_is_read(
    a: u8,
    b: u8,
    c: u8,
    d: u8,
    since: u8,
    rest: Seq<u8>,
    m: Message,
)
    ensures
        ({
            let n = (a * 0x100_0000 + b * 0x1_0000 + c * 0x100 + d) as nat;
            &&& pdu::headers_read(seq![0x85u8, 4u8, a, b, c, d] + rest, m) == pdu::headers_read(
                rest,
                Message { date: Some(n), ..m },
            )
            &&& pdu::headers_read(seq![0x8eu8, 4u8, a, b, c, d] + rest, m) == pdu::headers_read(
                rest,
                Message { message_size: Some(n), ..m },
            )
            &&& pdu::headers_read(seq![0x88u8, 6u8, since, 4u8, a, b, c, d] + rest, m)
                == pdu::headers_read(rest, Message { expiry: Some(n), ..m })
        }),
{
    let n = (a * 0x100_0000 + b * 0x1_0000 + c * 0x100 + d) as nat;
    let value = seq![4u8, a, b, c, d];
    law_a_long_number_is_read(a, b, c, d, rest);
    assert((value + rest)[0] == 4);
    assert(wsp::integer_read(value + rest) == (Some(n), 5nat));
    lemma_date(value, rest, m, n);
    assert(seq![0x85u8] + value + rest =~= seq![0x85u8, 4u8, a, b, c, d] + rest);
    assert(seq![0x8eu8] + value + rest =~= seq![0x8eu8, 4u8, a, b, c, d] + rest);
    let kept = seq![6u8, since, 4u8, a, b, c, d];
    law_a_long_number_is_read(a, b, c, d, seq![]);
    assert(value + Seq::<u8>::empty() =~= value);
    lemma_expiry(since, value, rest, m, n);
    assert(seq![6u8, since] + value =~= kept);
    assert(seq![0x88u8] + kept + rest =~= seq![0x88u8, 6u8, since, 4u8, a, b, c, d] + rest);
}

proof fn lemma_date(value: Seq<u8>, rest: Seq<u8>, m: Message, n: nat)
    requires
        wsp::long_read(value + rest) == (Some(n), value.len()),
        wsp::integer_read(value + rest) == (Some(n), value.len()),
    ensures
        pdu::headers_read(seq![0x85u8] + value + rest, m) == pdu::headers_read(
            rest,
            Message { date: Some(n), ..m },
        ),
        pdu::headers_read(seq![0x8eu8] + value + rest, m) == pdu::headers_read(
            rest,
            Message { message_size: Some(n), ..m },
        ),
{
    reveal(pdu::field_read);
    lemma_step(0x85, value, rest, m, Message { date: Some(n), ..m });
    lemma_step(0x8e, value, rest, m, Message { message_size: Some(n), ..m });
}

proof fn lemma_sized(n: u8, inner: Seq<u8>, rest: Seq<u8>)
    requires
        inner.len() == n,
        n <= 30,
    ensures
        pdu::sized_read(seq![n] + inner + rest) == (inner, (n + 1) as nat),
{
    let s = seq![n] + inner + rest;
    assert(s[0] == n);
    assert(wsp::bounded_read(s) == (Some(n as nat), 1nat));
    assert(s.subrange(1, 1 + n as int) =~= inner);
}

proof fn lemma_expiry(since: u8, value: Seq<u8>, rest: Seq<u8>, m: Message, n: nat)
    requires
        value.len() == 5,
        value[0] == 4,
        wsp::long_read(value) == (Some(n), 5nat),
    ensures
        pdu::headers_read(seq![0x88u8] + (seq![6u8, since] + value) + rest, m)
            == pdu::headers_read(rest, Message { expiry: Some(n), ..m }),
{
    let inner = seq![since] + value;
    let kept = seq![6u8, since] + value;
    lemma_sized(6, inner, rest);
    assert(seq![6u8] + inner + rest =~= kept + rest);
    assert(inner.skip(1) =~= value);
    assert(wsp::integer_read(value).0 == Some(n));
    reveal(pdu::field_read);
    lemma_step(0x88, kept, rest, m, Message { expiry: Some(n), ..m });
}

/// The sender stands behind the length of what follows and a byte that says that there is one; a
/// sender that is to be filled in is none.
pub proof fn law_a_sender_is_read(t: Seq<char>, rest: Seq<u8>, m: Message)
    requires
        t.len() > 0,
        0x20 <= t[0] as u32 <= 0x7e,
        !t.contains('\0'),
        encode_utf8(t).len() <= 28,
    ensures
        pdu::headers_read(
            seq![0x89u8, (encode_utf8(t).len() + 2) as u8, 0x80u8] + encode_utf8(t) + seq![0u8]
                + rest,
            m,
        ) == pdu::headers_read(rest, Message { from: Some(t), ..m }),
        pdu::headers_read(seq![0x89u8, 1u8, 0x81u8] + rest, m) == pdu::headers_read(
            rest,
            Message { from: None, ..m },
        ),
{
    let text = encode_utf8(t) + seq![0u8];
    let n = (text.len() + 1) as u8;
    let inner = seq![0x80u8] + text;
    law_a_text_is_written(t);
    text::lemma_first_byte(t);
    wsp::law_text_round_trip(t, seq![]);
    assert(text + Seq::<u8>::empty() =~= text);
    assert(text[0] == encode_utf8(t)[0]);
    assert(wsp::encoded_read(text).0 == Some(t));
    assert(inner.skip(1) =~= text);
    lemma_sender(n, inner, rest, m, Some(t));
    assert(seq![0x89u8] + (seq![n] + inner) + rest =~= seq![
        0x89u8,
        (encode_utf8(t).len() + 2) as u8,
        0x80u8,
    ] + encode_utf8(t) + seq![0u8] + rest);
    lemma_sender(1, seq![0x81u8], rest, m, None);
    assert(seq![0x89u8] + (seq![1u8] + seq![0x81u8]) + rest =~= seq![0x89u8, 1u8, 0x81u8] + rest);
}

proof fn lemma_sender(n: u8, inner: Seq<u8>, rest: Seq<u8>, m: Message, from: Option<Seq<char>>)
    requires
        0 < n <= 30,
        inner.len() == n,
        from == (if inner[0] == 0x80 {
            wsp::encoded_read(inner.skip(1)).0
        } else {
            None
        }),
    ensures
        pdu::headers_read(seq![0x89u8] + (seq![n] + inner) + rest, m) == pdu::headers_read(
            rest,
            Message { from, ..m },
        ),
{
    lemma_sized(n, inner, rest);
    assert(seq![n] + inner + rest =~= (seq![n] + inner) + rest);
    reveal(pdu::field_read);
    lemma_step(0x89, seq![n] + inner, rest, m, Message { from, ..m });
}

// ------------------------------------------------------------------ parts that are read

/// A part of a message is the two lengths, its headers and its data; its data is what stands there,
/// byte for byte, and the next part begins behind it.
pub proof fn law_a_part_is_read(headers: Seq<u8>, data: Seq<u8>, rest: Seq<u8>)
    requires
        headers.len() <= usize::MAX,
        data.len() <= usize::MAX,
        headers.len() < 0x20_0000,
        data.len() < 0x20_0000,
    ensures
        ({
            let s = wsp::uintvar_bytes(headers.len()) + wsp::uintvar_bytes(data.len()) + headers
                + data + rest;
            pdu::entry_read(s) matches Some((p, n)) && s.skip(n as int) == rest && p.data == data
                && p == pdu::part_of(headers, data)
        }),
{
    let h = wsp::uintvar_bytes(headers.len());
    let d = wsp::uintvar_bytes(data.len());
    let s = h + d + headers + data + rest;
    wsp::law_uintvar_round_trip(headers.len(), d + headers + data + rest);
    wsp::law_uintvar_round_trip(data.len(), headers + data + rest);
    assert(s =~= h + (d + headers + data + rest));
    assert(s.skip(h.len() as int) =~= d + (headers + data + rest));
    assert(d + headers + data + rest =~= d + (headers + data + rest));
    assert(wsp::uintvar_read(s) == (Some(headers.len()), h.len()));
    assert(wsp::uintvar_read(s.skip(h.len() as int)) == (Some(data.len()), d.len()));
    let a = (h.len() + d.len()) as int;
    assert(s.subrange(a, a + headers.len()) =~= headers);
    assert(s.subrange(a + headers.len(), a + headers.len() + data.len()) =~= data);
    assert(s.skip(a + headers.len() + data.len()) =~= rest);
    let n = (h.len() + d.len() + headers.len() + data.len()) as nat;
    assert(s.len() == n + rest.len());
    assert(s.subrange(a, (h.len() + d.len() + headers.len()) as int) == headers);
    assert(s.subrange((h.len() + d.len() + headers.len()) as int, n as int) == data);
    assert(pdu::entry_read(s) == Some((pdu::part_of(headers, data), n)));
    lemma_part_data(headers, data);
}

proof fn lemma_part_data(headers: Seq<u8>, data: Seq<u8>)
    ensures
        pdu::part_of(headers, data).data == data,
{
    reveal(pdu::part_of);
    lemma_headers_keep_data(
        headers.skip(wsp::type_read(headers).1 as int),
        Part {
            content_type: match wsp::type_read(headers).0 {
                Some(v) => v.0,
                None => "application/octet-stream"@,
            },
            params: match wsp::type_read(headers).0 {
                Some(v) => v.1,
                None => seq![],
            },
            content_id: None,
            content_location: None,
            data,
        },
    );
}

proof fn lemma_headers_keep_data(s: Seq<u8>, p: Part)
    ensures
        pdu::part_headers_read(s, p).data == p.data,
        pdu::part_headers_read(s, p).content_type == p.content_type,
        pdu::part_headers_read(s, p).params == p.params,
    decreases s.len(),
{
    if s.len() > 0 {
        let (ok, q, n) = pdu::part_header_read(s, p);
        if ok && 0 < n <= s.len() {
            lemma_headers_keep_data(s.skip(n as int), q);
        }
    }
}

// ------------------------------------------------------------------ assigned numbers

/// The content types that have a number have the one that is assigned to them, and no others have one.
pub proof fn law_content_types_have_their_numbers(code: u8)
    ensures
        wsp::known_type(0x00) == Some("*/*"@),
        wsp::known_type(0x01) == Some("text/*"@),
        wsp::known_type(0x02) == Some("text/html"@),
        wsp::known_type(0x03) == Some("text/plain"@),
        wsp::known_type(0x04) == Some("text/x-hdml"@),
        wsp::known_type(0x05) == Some("text/x-ttml"@),
        wsp::known_type(0x06) == Some("text/x-vCalendar"@),
        wsp::known_type(0x07) == Some("text/x-vCard"@),
        wsp::known_type(0x08) == Some("text/vnd.wap.wml"@),
        wsp::known_type(0x09) == Some("text/vnd.wap.wmlscript"@),
        wsp::known_type(0x0A) == Some("text/vnd.wap.wta-event"@),
        wsp::known_type(0x0B) == Some("multipart/*"@),
        wsp::known_type(0x0C) == Some("multipart/mixed"@),
        wsp::known_type(0x0D) == Some("multipart/form-data"@),
        wsp::known_type(0x0E) == Some("multipart/byteranges"@),
        wsp::known_type(0x0F) == Some("multipart/alternative"@),
        wsp::known_type(0x10) == Some("application/*"@),
        wsp::known_type(0x11) == Some("application/java-vm"@),
        wsp::known_type(0x12) == Some("application/x-www-form-urlencoded"@),
        wsp::known_type(0x13) == Some("application/x-hdmlc"@),
        wsp::known_type(0x14) == Some("application/vnd.wap.wmlc"@),
        wsp::known_type(0x15) == Some("application/vnd.wap.wmlscriptc"@),
        wsp::known_type(0x16) == Some("application/vnd.wap.wta-eventc"@),
        wsp::known_type(0x17) == Some("application/vnd.wap.uaprof"@),
        wsp::known_type(0x18) == Some("application/vnd.wap.wtls-ca-certificate"@),
        wsp::known_type(0x19) == Some("application/vnd.wap.wtls-user-certificate"@),
        wsp::known_type(0x1A) == Some("application/x-x509-ca-cert"@),
        wsp::known_type(0x1B) == Some("application/x-x509-user-cert"@),
        wsp::known_type(0x1C) == Some("image/*"@),
        wsp::known_type(0x1D) == Some("image/gif"@),
        wsp::known_type(0x1E) == Some("image/jpeg"@),
        wsp::known_type(0x1F) == Some("image/tiff"@),
        wsp::known_type(0x20) == Some("image/png"@),
        wsp::known_type(0x21) == Some("image/vnd.wap.wbmp"@),
        wsp::known_type(0x22) == Some("application/vnd.wap.multipart.*"@),
        wsp::known_type(0x23) == Some("application/vnd.wap.multipart.mixed"@),
        wsp::known_type(0x24) == Some("application/vnd.wap.multipart.form-data"@),
        wsp::known_type(0x25) == Some("application/vnd.wap.multipart.byteranges"@),
        wsp::known_type(0x26) == Some("application/vnd.wap.multipart.alternative"@),
        wsp::known_type(0x27) == Some("application/xml"@),
        wsp::known_type(0x28) == Some("text/xml"@),
        wsp::known_type(0x29) == Some("application/vnd.wap.wbxml"@),
        wsp::known_type(0x2A) == Some("application/x-x968-cross-cert"@),
        wsp::known_type(0x2B) == Some("application/x-x968-ca-cert"@),
        wsp::known_type(0x2C) == Some("application/x-x968-user-cert"@),
        wsp::known_type(0x2D) == Some("text/vnd.wap.si"@),
        wsp::known_type(0x2E) == Some("application/vnd.wap.sic"@),
        wsp::known_type(0x2F) == Some("text/vnd.wap.sl"@),
        wsp::known_type(0x30) == Some("application/vnd.wap.slc"@),
        wsp::known_type(0x31) == Some("text/vnd.wap.co"@),
        wsp::known_type(0x32) == Some("application/vnd.wap.coc"@),
        wsp::known_type(0x33) == Some("application/vnd.wap.multipart.related"@),
        wsp::known_type(0x34) == Some("application/vnd.wap.sia"@),
        wsp::known_type(0x35) == Some("text/vnd.wap.connectivity-xml"@),
        wsp::known_type(0x36) == Some("application/vnd.wap.connectivity-wbxml"@),
        wsp::known_type(0x37) == Some("application/pkcs7-mime"@),
        wsp::known_type(0x3E) == Some("application/vnd.wap.mms-message"@),
        0x38 <= code && code != 0x3e ==> wsp::known_type(code).is_none(),
{
}

/// The character sets that texts come in are known by their numbers; every other number is taken for
/// UTF-8.
pub proof fn law_character_sets_have_their_numbers(mib: nat)
    ensures
        wsp::mib_charset(106) == "UTF-8"@,
        wsp::mib_charset(3) == "windows-1252"@,
        wsp::mib_charset(4) == "windows-1252"@,
        wsp::mib_charset(17) == "Shift_JIS"@,
        wsp::mib_charset(18) == "EUC-JP"@,
        wsp::mib_charset(36) == "EUC-KR"@,
        wsp::mib_charset(38) == "EUC-KR"@,
        wsp::mib_charset(113) == "GBK"@,
        wsp::mib_charset(1000) == "UTF-16BE"@,
        wsp::mib_charset(1013) == "UTF-16BE"@,
        wsp::mib_charset(1014) == "UTF-16LE"@,
        wsp::mib_charset(1015) == "UTF-16BE"@,
        wsp::mib_charset(2024) == "Shift_JIS"@,
        wsp::mib_charset(2025) == "EUC-JP"@,
        wsp::mib_charset(2026) == "Big5"@,
        wsp::mib_charset(2085) == "GBK"@,
        !(3 <= mib <= 4 || 17 <= mib <= 18 || mib == 36 || mib == 38 || mib == 113 || mib == 1000
            || 1013 <= mib <= 1015 || 2024 <= mib <= 2026 || mib == 2085) ==> wsp::mib_charset(mib)
            == "UTF-8"@,
{
}

// ------------------------------------------------------------------ bodies that are read

/// A body of several parts is read as they stand; any other body that is not empty is one part, with
/// the content type of the message and the body as its data.
pub proof fn law_a_body_is_one_part_or_several(m: Message, t: Seq<char>, body: Seq<u8>)
    requires
        m.content_type == Some(t),
    ensures
        ({
            let several = t.len() >= 10 && t.take(10) == "multipart/"@ || t.len() >= 29 && t.take(29)
                == "application/vnd.wap.multipart"@;
            &&& several ==> pdu::body_parts(m, body) == pdu::multipart_read(body)
            &&& !several && body.len() > 0 ==> pdu::body_parts(m, body) == seq![
                Part {
                    content_type: t,
                    params: m.content_type_params,
                    content_id: None,
                    content_location: None,
                    data: body,
                },
            ]
            &&& !several && body.len() == 0 ==> pdu::body_parts(m, body).len() == 0
        }),
{
    reveal_strlit("multipart/");
    reveal_strlit("application/vnd.wap.multipart");
}

/// The parts of a body follow their count, and each follows the one before it.
pub proof fn law_parts_follow_each_other(headers: Seq<u8>, data: Seq<u8>, rest: Seq<u8>, k: nat)
    requires
        headers.len() <= usize::MAX,
        data.len() <= usize::MAX,
        headers.len() < 0x20_0000,
        data.len() < 0x20_0000,
        k < 127,
    ensures
        ({
            let s = wsp::uintvar_bytes(headers.len()) + wsp::uintvar_bytes(data.len()) + headers
                + data + rest;
            &&& pdu::entries_read(s, k + 1) == seq![pdu::part_of(headers, data)] + pdu::entries_read(
                rest,
                k,
            )
            &&& pdu::multipart_read(seq![(k + 1) as u8] + s) == pdu::entries_read(s, k + 1)
        }),
{
    let s = wsp::uintvar_bytes(headers.len()) + wsp::uintvar_bytes(data.len()) + headers + data
        + rest;
    law_a_part_is_read(headers, data, rest);
    law_a_variable_number_is_read(128, 128, 128, (k + 1) as u8, s);
    assert((seq![(k + 1) as u8] + s).skip(1) =~= s);
}

/// A part goes by the first name it has among its parameters, and by its location where it has none.
pub proof fn law_a_part_goes_by_its_first_name(p: Part, i: int, n: Seq<char>)
    requires
        0 <= i < p.params.len(),
        p.params[i] == ("name"@, n) || p.params[i] == ("filename"@, n),
        forall|j: int|
            0 <= j < i ==> (#[trigger] p.params[j]).0 != "name"@ && p.params[j].0 != "filename"@,
    ensures
        pdu::part_name(p) == Some(n),
{
    lemma_first_name(p.params, i, n);
}

proof fn lemma_first_name(v: Seq<(Seq<char>, Seq<char>)>, i: int, n: Seq<char>)
    requires
        0 <= i < v.len(),
        v[i] == ("name"@, n) || v[i] == ("filename"@, n),
        forall|j: int| 0 <= j < i ==> (#[trigger] v[j]).0 != "name"@ && v[j].0 != "filename"@,
    ensures
        pdu::file_param(v) == Some(n),
    decreases i,
{
    if i > 0 {
        let r = v.skip(1);
        assert(r[i - 1] == v[i]);
        assert forall|j: int| 0 <= j < i - 1 implies (#[trigger] r[j]).0 != "name"@ && r[j].0
            != "filename"@ by {
            assert(r[j] == v[j + 1]);
        }
        assert(v[0].0 != "name"@ && v[0].0 != "filename"@);
        lemma_first_name(r, i - 1, n);
    }
}

// ------------------------------------------------------------------ messages that are written

/// A submission begins with its kind, its transaction and its version, leaves the sender to be filled
/// in where none is given, and ends its headers with its class and what reports are wanted.
pub proof fn law_a_submission_is_laid_out(
    tid: Seq<char>,
    to: Seq<Seq<char>>,
    subject: Option<Seq<char>>,
    delivery: bool,
    read: bool,
)
    ensures
        pdu::send_header_bytes(tid, None, to, subject, delivery, read) == seq![
            0x8cu8,
            0x80u8,
            0x98u8,
        ] + wsp::text_bytes(tid) + seq![0x8du8, 0x92u8, 0x89u8, 0x01u8, 0x81u8] + pdu::to_bytes(to)
            + pdu::subject_bytes(subject) + seq![
            0x8au8,
            0x80u8,
            0x86u8,
            if delivery {
                0x80u8
            } else {
                0x81u8
            },
            0x90u8,
            if read {
                0x80u8
            } else {
                0x81u8
            },
        ],
{
    assert(pdu::send_header_bytes(tid, None, to, subject, delivery, read) =~= seq![
        0x8cu8,
        0x80u8,
        0x98u8,
    ] + wsp::text_bytes(tid) + seq![0x8du8, 0x92u8, 0x89u8, 0x01u8, 0x81u8] + pdu::to_bytes(to)
        + pdu::subject_bytes(subject) + seq![
        0x8au8,
        0x80u8,
        0x86u8,
        if delivery {
            0x80u8
        } else {
            0x81u8
        },
        0x90u8,
        if read {
            0x80u8
        } else {
            0x81u8
        },
    ]);
}

/// Every recipient has a header of their own, in the order given, and the subject has one where there
/// is one.
pub proof fn law_every_recipient_is_written(to: Seq<Seq<char>>, more: Seq<char>, subject: Seq<char>)
    ensures
        pdu::to_bytes(seq![]).len() == 0,
        pdu::to_bytes(to.push(more)) == pdu::to_bytes(to) + seq![0x97u8] + wsp::encoded_bytes(
            pdu::formatted(more),
        ),
        subject.len() > 0 ==> pdu::subject_bytes(Some(subject)) == seq![0x96u8]
            + wsp::encoded_bytes(subject),
        pdu::subject_bytes(Some(seq![])).len() == 0,
        pdu::subject_bytes(None).len() == 0,
{
    assert(to.push(more).drop_last() =~= to);
    assert(pdu::to_bytes(to.push(more)) =~= pdu::to_bytes(to) + seq![0x97u8] + wsp::encoded_bytes(
        pdu::formatted(more),
    ));
}

/// A number is addressed as one; an address of mail and one that says what it is are kept.
pub proof fn law_an_address_says_what_it_is(a: Seq<char>)
    ensures
        text::trim(a).contains('@') ==> pdu::formatted(a) == text::trim(a),
        !text::trim(a).contains('@') && !text::trim(a).contains('/') ==> pdu::formatted(a)
            == text::trim(a) + "/TYPE=PLMN"@,
        !text::trim(a).contains('/') ==> pdu::address_part(text::trim(a) + "/TYPE=PLMN"@)
            == text::trim(a),
{
    let t = text::trim(a);
    text::law_a_text_is_found_where_it_stands(t, "/TYPE="@);
    reveal_strlit("/TYPE=");
    if !t.contains('/') {
        assert forall|i: int| 0 <= i <= t.len() - 6 implies #[trigger] t.subrange(i, i + 6)
            != "/TYPE="@ by {
            assert(t.subrange(i, i + 6)[0] == t[i]);
            assert(t.contains(t[i]));
        }
        reveal_strlit("/TYPE=PLMN");
        let s = t + "/TYPE=PLMN"@;
        assert forall|j: int| 0 <= j < t.len() implies s[j] != '/' by {
            assert(t.contains(t[j]));
        }
        text::lemma_find_unique(s, '/', t.len() as int);
        assert(s.take(t.len() as int) =~= t);
        text::lemma_trim_is_trimmed(a);
        text::lemma_trimmed(t);
    }
}

/// An answer to a notification and an acknowledgement are laid out alike: their kind, the transaction
/// they are about, the version, what became of it in the one case, and whether a report is allowed.
pub proof fn law_a_reply_is_laid_out(tid: Seq<char>, status: u8, allowed: bool)
    ensures
        pdu::notify_resp_bytes(tid, status, allowed) == seq![0x8cu8, 0x83u8, 0x98u8]
            + wsp::text_bytes(tid) + seq![
            0x8du8,
            0x92u8,
            0x95u8,
            status,
            0x91u8,
            if allowed {
                0x80u8
            } else {
                0x81u8
            },
        ],
        pdu::acknowledge_bytes(tid, allowed) == seq![0x8cu8, 0x85u8, 0x98u8] + wsp::text_bytes(tid)
            + seq![
            0x8du8,
            0x92u8,
            0x91u8,
            if allowed {
                0x80u8
            } else {
                0x81u8
            },
        ],
{
    assert(pdu::notify_resp_bytes(tid, status, allowed) =~= seq![0x8cu8, 0x83u8, 0x98u8]
        + wsp::text_bytes(tid) + seq![
        0x8du8,
        0x92u8,
        0x95u8,
        status,
        0x91u8,
        if allowed {
            0x80u8
        } else {
            0x81u8
        },
    ]);
    assert(pdu::acknowledge_bytes(tid, allowed) =~= seq![0x8cu8, 0x85u8, 0x98u8] + wsp::text_bytes(
        tid,
    ) + seq![
        0x8du8,
        0x92u8,
        0x91u8,
        if allowed {
            0x80u8
        } else {
            0x81u8
        },
    ]);
}

} // verus!
