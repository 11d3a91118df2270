//! What is encoded here is decoded to what it was encoded from.
use vstd::prelude::*;
use vstd::utf8::*;

use super::field;
use super::msg_type;
use super::{Flow, Message, Part, SendReq};
use crate::mms::pdu;
use crate::mms::wsp;
use crate::text;

verus! {

/// A text that a text string can carry.
pub open spec fn plain(t: Seq<char>) -> bool {
    !t.contains('\0') && (t.len() > 0 ==> t[0] != '\x7f')
}

// ------------------------------------------------------------------ headers

proof fn lemma_header_step(b: u8, value: Seq<u8>, rest: Seq<u8>, m: Message, m1: Message)
    requires
        b >= 128,
        pdu::field_read(b, value + rest, m) == (Flow::Continue, m1, value.len()),
    ensures
        pdu::headers_read(seq![b] + value + rest, m) == pdu::headers_read(rest, m1),
{
    let s = seq![b] + value + rest;
    assert(s.skip(1) =~= value + rest);
    assert(s.skip(1 + value.len() as int) =~= rest);
    assert(s[0] == b);
}

proof fn lemma_byte_header(b: u8, v: u8, rest: Seq<u8>, m: Message, m1: Message)
    requires
        b >= 128,
        pdu::field_read(b, seq![v] + rest, m) == (Flow::Continue, m1, 1nat),
    ensures
        pdu::headers_read(seq![b, v] + rest, m) == pdu::headers_read(rest, m1),
{
    lemma_header_step(b, seq![v], rest, m, m1);
    assert(seq![b] + seq![v] + rest =~= seq![b, v] + rest);
}

/// The message after the type, transaction and version.
spec fn begun(message_type: u8, tid: Seq<char>, m: Message) -> Message {
    Message {
        message_type,
        transaction_id: Some(tid),
        version: Some(pdu::VERSION_1_2),
        ..m
    }
}

proof fn lemma_type_header(v: u8, rest: Seq<u8>, m: Message)
    ensures
        pdu::headers_read(seq![field::MESSAGE_TYPE, v] + rest, m) == pdu::headers_read(
            rest,
            Message { message_type: v, ..m },
        ),
{
    reveal(pdu::field_read);
    assert((seq![v] + rest)[0] == v);
    lemma_byte_header(field::MESSAGE_TYPE, v, rest, m, Message { message_type: v, ..m });
}

proof fn lemma_version_header(v: u8, rest: Seq<u8>, m: Message)
    ensures
        pdu::headers_read(seq![field::MMS_VERSION, v] + rest, m) == pdu::headers_read(
            rest,
            Message { version: Some(v), ..m },
        ),
{
    reveal(pdu::field_read);
    assert((seq![v] + rest)[0] == v);
    lemma_byte_header(field::MMS_VERSION, v, rest, m, Message { version: Some(v), ..m });
}

proof fn lemma_transaction_header(tid: Seq<char>, rest: Seq<u8>, m: Message)
    requires
        plain(tid),
    ensures
        pdu::headers_read(seq![field::TRANSACTION_ID] + wsp::text_bytes(tid) + rest, m)
            == pdu::headers_read(rest, Message { transaction_id: Some(tid), ..m }),
{
    let t = wsp::text_bytes(tid);
    let m1 = Message { transaction_id: Some(tid), ..m };
    wsp::law_text_round_trip(tid, rest);
    assert(pdu::field_read(field::TRANSACTION_ID, t + rest, m) == (Flow::Continue, m1, t.len()))
        by {
        reveal(pdu::field_read);
    }
    lemma_header_step(field::TRANSACTION_ID, t, rest, m, m1);
}

proof fn lemma_preamble(message_type: u8, tid: Seq<char>, rest: Seq<u8>, m: Message)
    requires
        plain(tid),
    ensures
        pdu::headers_read(pdu::preamble_bytes(message_type, tid) + rest, m) == pdu::headers_read(
            rest,
            begun(message_type, tid, m),
        ),
{
    let t = wsp::text_bytes(tid);
    let last = seq![field::MMS_VERSION, pdu::VERSION_1_2] + rest;
    let m1 = Message { message_type, ..m };
    let middle = seq![field::TRANSACTION_ID] + t + last;
    lemma_type_header(message_type, middle, m);
    lemma_transaction_header(tid, last, m1);
    lemma_version_header(
        pdu::VERSION_1_2,
        rest,
        Message { transaction_id: Some(tid), ..m1 },
    );
    assert(pdu::preamble_bytes(message_type, tid) + rest =~= seq![field::MESSAGE_TYPE, message_type]
        + middle);
}

/// A header that is not read is passed over, where its value is one byte.
proof fn lemma_skipped_header(b: u8, v: u8, rest: Seq<u8>, m: Message)
    requires
        b == field::STATUS || b == field::REPORT_ALLOWED || b == field::DELIVERY_REPORT || b
            == field::READ_REPORT,
        v >= 128,
    ensures
        pdu::headers_read(seq![b, v] + rest, m) == pdu::headers_read(rest, m),
{
    reveal(pdu::field_read);
    assert((seq![v] + rest)[0] == v);
    lemma_byte_header(b, v, rest, m, m);
}

proof fn lemma_end(m: Message)
    ensures
        pdu::headers_read(seq![], m) == Some((m, None::<Seq<u8>>)),
{
}

/// An M-NotifyResp.ind is decoded to what it was encoded from.
pub proof fn law_notify_resp_is_decodable(tid: Seq<char>, status: u8, report_allowed: bool)
    requires
        plain(tid),
        status >= 128,
    ensures
        pdu::message_of(pdu::notify_resp_bytes(tid, status, report_allowed)) == Some(
            Message {
                message_type: msg_type::NOTIFYRESP_IND,
                transaction_id: Some(tid),
                version: Some(pdu::VERSION_1_2),
                ..pdu::empty_message()
            },
        ),
{
    let m = begun(msg_type::NOTIFYRESP_IND, tid, pdu::empty_message());
    let r = pdu::report_byte(report_allowed);
    let tail = seq![field::REPORT_ALLOWED, r] + seq![];
    let rest = seq![field::STATUS, status] + tail;
    lemma_preamble(msg_type::NOTIFYRESP_IND, tid, rest, pdu::empty_message());
    lemma_skipped_header(field::STATUS, status, tail, m);
    lemma_skipped_header(field::REPORT_ALLOWED, r, seq![], m);
    lemma_end(m);
    assert(pdu::notify_resp_bytes(tid, status, report_allowed) =~= pdu::preamble_bytes(
        msg_type::NOTIFYRESP_IND,
        tid,
    ) + rest);
}

/// An M-Acknowledge.ind is decoded to what it was encoded from.
pub proof fn law_acknowledgement_is_decodable(tid: Seq<char>, report_allowed: bool)
    requires
        plain(tid),
    ensures
        pdu::message_of(pdu::acknowledge_bytes(tid, report_allowed)) == Some(
            Message {
                message_type: msg_type::ACKNOWLEDGE_IND,
                transaction_id: Some(tid),
                version: Some(pdu::VERSION_1_2),
                ..pdu::empty_message()
            },
        ),
{
    let m = begun(msg_type::ACKNOWLEDGE_IND, tid, pdu::empty_message());
    let r = pdu::report_byte(report_allowed);
    let rest = seq![field::REPORT_ALLOWED, r] + seq![];
    lemma_preamble(msg_type::ACKNOWLEDGE_IND, tid, rest, pdu::empty_message());
    lemma_skipped_header(field::REPORT_ALLOWED, r, seq![], m);
    lemma_end(m);
    assert(pdu::acknowledge_bytes(tid, report_allowed) =~= pdu::preamble_bytes(
        msg_type::ACKNOWLEDGE_IND,
        tid,
    ) + rest);
}

// ------------------------------------------------------------------ the headers of a submission

/// The sender that a submission names.
pub open spec fn sent_from(from: Option<Seq<char>>) -> Option<Seq<char>> {
    match from {
        Some(a) => Some(pdu::formatted(a)),
        None => None,
    }
}

pub open spec fn sent_to(to: Seq<Seq<char>>) -> Seq<Seq<char>> {
    to.map_values(|a: Seq<char>| pdu::formatted(a))
}

pub open spec fn sent_subject(subject: Option<Seq<char>>) -> Option<Seq<char>> {
    match subject {
        Some(s) => if s.len() > 0 {
            Some(s)
        } else {
            None
        },
        None => None,
    }
}

pub open spec fn sender_encodable(from: Option<Seq<char>>) -> bool {
    match from {
        Some(a) => wsp::encodable(pdu::formatted(a)) && wsp::encoded_bytes(pdu::formatted(a)).len() + 1
            < 0x100_0000_0000_0000 && wsp::encoded_bytes(pdu::formatted(a)).len() + 1 <= usize::MAX,
        None => true,
    }
}

proof fn lemma_from_header(from: Option<Seq<char>>, rest: Seq<u8>, m: Message)
    requires
        sender_encodable(from),
    ensures
        pdu::headers_read(seq![field::FROM] + pdu::from_bytes(from) + rest, m) == pdu::headers_read(
            rest,
            Message { from: sent_from(from), ..m },
        ),
{
    let value = pdu::from_bytes(from);
    let inner = match from {
        Some(a) => seq![0x80u8] + wsp::encoded_bytes(pdu::formatted(a)),
        None => seq![0x81u8],
    };
    let n = wsp::length_bytes(inner.len()).len();
    let s = value + rest;
    assert(s =~= wsp::length_bytes(inner.len()) + (inner + rest));
    wsp::law_length_round_trip(inner.len(), inner + rest);
    assert(s.subrange(n as int, (n + inner.len()) as int) =~= inner);
    assert(pdu::sized_read(s) == (inner, value.len()));
    if let Some(a) = from {
        let e = wsp::encoded_bytes(pdu::formatted(a));
        assert(inner.skip(1) =~= e + Seq::<u8>::empty());
        wsp::law_encoded_round_trip(pdu::formatted(a), Seq::<u8>::empty());
    }
    let m1 = Message { from: sent_from(from), ..m };
    assert(pdu::field_read(field::FROM, s, m) == (Flow::Continue, m1, value.len())) by {
        reveal(pdu::field_read);
    }
    lemma_header_step(field::FROM, value, rest, m, m1);
}

proof fn lemma_to_header(a: Seq<char>, rest: Seq<u8>, m: Message)
    requires
        wsp::encodable(pdu::formatted(a)),
    ensures
        pdu::headers_read(
            seq![field::TO] + wsp::encoded_bytes(pdu::formatted(a)) + rest,
            m,
        ) == pdu::headers_read(rest, Message { to: m.to.push(pdu::formatted(a)), ..m }),
{
    let value = wsp::encoded_bytes(pdu::formatted(a));
    let m1 = Message { to: m.to.push(pdu::formatted(a)), ..m };
    wsp::law_encoded_round_trip(pdu::formatted(a), rest);
    assert(pdu::field_read(field::TO, value + rest, m) == (Flow::Continue, m1, value.len())) by {
        reveal(pdu::field_read);
    }
    lemma_header_step(field::TO, value, rest, m, m1);
}

proof fn lemma_recipients(to: Seq<Seq<char>>, rest: Seq<u8>, m: Message)
    requires
        forall|i: int| 0 <= i < to.len() ==> wsp::encodable(pdu::formatted(#[trigger] to[i])),
    ensures
        pdu::headers_read(pdu::to_bytes(to) + rest, m) == pdu::headers_read(
            rest,
            Message { to: m.to + sent_to(to), ..m },
        ),
    decreases to.len(),
{
    if to.len() == 0 {
        assert(pdu::to_bytes(to) + rest =~= rest);
        assert(m.to + sent_to(to) =~= m.to);
    } else {
        let piece = seq![field::TO] + wsp::encoded_bytes(pdu::formatted(to.last()));
        assert(pdu::to_bytes(to) + rest =~= pdu::to_bytes(to.drop_last()) + (piece + rest));
        assert forall|i: int| 0 <= i < to.drop_last().len() implies wsp::encodable(
            pdu::formatted(#[trigger] to.drop_last()[i]),
        ) by {
            assert(to.drop_last()[i] == to[i]);
        }
        lemma_recipients(to.drop_last(), piece + rest, m);
        let m1 = Message { to: m.to + sent_to(to.drop_last()), ..m };
        lemma_to_header(to.last(), rest, m1);
        assert((m.to + sent_to(to.drop_last())).push(pdu::formatted(to.last())) =~= m.to + sent_to(
            to,
        ));
    }
}

proof fn lemma_subject_header(subject: Option<Seq<char>>, rest: Seq<u8>, m: Message)
    requires
        subject matches Some(s) ==> wsp::encodable(s),
        m.subject.is_none(),
    ensures
        pdu::headers_read(pdu::subject_bytes(subject) + rest, m) == pdu::headers_read(
            rest,
            Message { subject: sent_subject(subject), ..m },
        ),
{
    match sent_subject(subject) {
        Some(s) => {
            let value = wsp::encoded_bytes(s);
            let m1 = Message { subject: Some(s), ..m };
            wsp::law_encoded_round_trip(s, rest);
            assert(pdu::field_read(field::SUBJECT, value + rest, m) == (
                Flow::Continue,
                m1,
                value.len(),
            )) by {
                reveal(pdu::field_read);
            }
            lemma_header_step(field::SUBJECT, value, rest, m, m1);
        },
        None => {
            assert(pdu::subject_bytes(subject) + rest =~= rest);
        },
    }
}

proof fn lemma_class_header(rest: Seq<u8>, m: Message)
    ensures
        pdu::headers_read(seq![field::MESSAGE_CLASS, 0x80u8] + rest, m) == pdu::headers_read(
            rest,
            Message { message_class: Some("personal"@), ..m },
        ),
{
    let m1 = Message { message_class: Some("personal"@), ..m };
    assert((seq![0x80u8] + rest)[0] == 0x80);
    assert(pdu::field_read(field::MESSAGE_CLASS, seq![0x80u8] + rest, m) == (
        Flow::Continue,
        m1,
        1nat,
    )) by {
        reveal(pdu::field_read);
    }
    lemma_byte_header(field::MESSAGE_CLASS, 0x80, rest, m, m1);
}

proof fn lemma_reports(delivery: bool, read: bool, rest: Seq<u8>, m: Message)
    ensures
        pdu::headers_read(
            seq![
                field::MESSAGE_CLASS,
                0x80u8,
                field::DELIVERY_REPORT,
                pdu::report_byte(delivery),
                field::READ_REPORT,
                pdu::report_byte(read),
            ] + rest,
            m,
        ) == pdu::headers_read(rest, Message { message_class: Some("personal"@), ..m }),
{
    let m1 = Message { message_class: Some("personal"@), ..m };
    let r2 = seq![field::READ_REPORT, pdu::report_byte(read)] + rest;
    let r1 = seq![field::DELIVERY_REPORT, pdu::report_byte(delivery)] + r2;
    lemma_class_header(r1, m);
    lemma_skipped_header(field::DELIVERY_REPORT, pdu::report_byte(delivery), r2, m1);
    lemma_skipped_header(field::READ_REPORT, pdu::report_byte(read), rest, m1);
    assert(seq![
        field::MESSAGE_CLASS,
        0x80u8,
        field::DELIVERY_REPORT,
        pdu::report_byte(delivery),
        field::READ_REPORT,
        pdu::report_byte(read),
    ] + rest =~= seq![field::MESSAGE_CLASS, 0x80u8] + r1);
}

/// What the headers of a submission say.
pub open spec fn sent_headers(
    tid: Seq<char>,
    from: Option<Seq<char>>,
    to: Seq<Seq<char>>,
    subject: Option<Seq<char>>,
) -> Message {
    Message {
        message_type: msg_type::SEND_REQ,
        transaction_id: Some(tid),
        version: Some(pdu::VERSION_1_2),
        from: sent_from(from),
        to: sent_to(to),
        subject: sent_subject(subject),
        message_class: Some("personal"@),
        ..pdu::empty_message()
    }
}

pub open spec fn headers_encodable(
    tid: Seq<char>,
    from: Option<Seq<char>>,
    to: Seq<Seq<char>>,
    subject: Option<Seq<char>>,
) -> bool {
    &&& plain(tid)
    &&& sender_encodable(from)
    &&& forall|i: int| 0 <= i < to.len() ==> wsp::encodable(pdu::formatted(#[trigger] to[i]))
    &&& subject matches Some(s) ==> wsp::encodable(s)
}

#[verifier::rlimit(40)]
proof fn lemma_send_headers(
    tid: Seq<char>,
    from: Option<Seq<char>>,
    to: Seq<Seq<char>>,
    subject: Option<Seq<char>>,
    delivery: bool,
    read: bool,
    rest: Seq<u8>,
)
    requires
        headers_encodable(tid, from, to, subject),
    ensures
        pdu::headers_read(
            pdu::send_header_bytes(tid, from, to, subject, delivery, read) + rest,
            pdu::empty_message(),
        ) == pdu::headers_read(rest, sent_headers(tid, from, to, subject)),
{
    let reports = seq![
        field::MESSAGE_CLASS,
        0x80u8,
        field::DELIVERY_REPORT,
        pdu::report_byte(delivery),
        field::READ_REPORT,
        pdu::report_byte(read),
    ];
    let r4 = reports + rest;
    let r3 = pdu::subject_bytes(subject) + r4;
    let r2 = pdu::to_bytes(to) + r3;
    let r1 = seq![field::FROM] + pdu::from_bytes(from) + r2;
    let m0 = begun(msg_type::SEND_REQ, tid, pdu::empty_message());
    let m1 = Message { from: sent_from(from), ..m0 };
    let m2 = Message { to: m1.to + sent_to(to), ..m1 };
    let m3 = Message { subject: sent_subject(subject), ..m2 };
    lemma_preamble(msg_type::SEND_REQ, tid, r1, pdu::empty_message());
    lemma_from_header(from, r2, m0);
    lemma_recipients(to, r3, m1);
    assert(m1.to + sent_to(to) =~= sent_to(to));
    lemma_subject_header(subject, r4, m2);
    lemma_reports(delivery, read, rest, m3);
    assert(pdu::send_header_bytes(tid, from, to, subject, delivery, read) + rest
        =~= pdu::preamble_bytes(msg_type::SEND_REQ, tid) + r1);
}

// ------------------------------------------------------------------ parts

/// The content type that a part is sent under: the name of its code, where it has one.
pub open spec fn sent_type(p: Part) -> Seq<char> {
    match wsp::type_code(p.content_type, 0) {
        Some(c) => wsp::type_text(c),
        None => p.content_type,
    }
}

/// The parameters that a part is sent with.
pub open spec fn sent_params(p: Part) -> Seq<(Seq<char>, Seq<char>)> {
    (if pdu::is_text_type(p.content_type) {
        seq![("charset"@, "UTF-8"@)]
    } else {
        seq![]
    }) + match pdu::part_name(p) {
        Some(n) => seq![("name"@, n)],
        None => seq![],
    }
}

/// The name of a part as its recipient has it: it travels in angle brackets, and comes out without
/// any at its ends.
pub open spec fn sent_id(id: Option<Seq<char>>) -> Option<Seq<char>> {
    match id {
        Some(i) => Some(pdu::trim_angles(i)),
        None => None,
    }
}

/// A part as its recipient has it.
pub open spec fn sent_part(p: Part) -> Part {
    Part {
        content_type: sent_type(p),
        params: sent_params(p),
        content_id: sent_id(p.content_id),
        ..p
    }
}

/// A name that has no angle brackets at its ends.
pub open spec fn unbracketed(id: Seq<char>) -> bool {
    id.len() > 0 ==> !pdu::is_angle(id[0]) && !pdu::is_angle(id.last())
}

/// A part whose texts can be carried and whose sizes can be written.
pub open spec fn sendable(p: Part) -> bool {
    &&& plain(p.content_type)
    &&& pdu::part_name(p) matches Some(n) ==> wsp::legible(n)
    &&& p.content_id matches Some(id) ==> !id.contains('\0')
    &&& p.content_location matches Some(l) ==> plain(l)
    &&& pdu::part_header_bytes(p).len() < 0x100_0000_0000_0000
    &&& pdu::part_header_bytes(p).len() <= usize::MAX
    &&& p.data.len() < 0x100_0000_0000_0000
    &&& p.data.len() <= usize::MAX
}

proof fn lemma_name_param(n: Seq<char>)
    requires
        wsp::legible(n),
    ensures
        wsp::params_read(seq![0x97u8] + wsp::text_bytes(n)) == seq![("name"@, n)],
{
    let e = Seq::<u8>::empty();
    let s = seq![0x97u8] + wsp::text_bytes(n);
    assert(s.skip(1) =~= wsp::text_bytes(n) + e);
    wsp::law_text_reads_as_encoded(n, e);
    assert(wsp::param_read(s) == (Some(("name"@, n)), s.len()));
    assert(s.skip(s.len() as int) =~= e);
    assert(wsp::params_read(e) =~= seq![]);
    assert(seq![("name"@, n)] + wsp::params_read(e) =~= seq![("name"@, n)]);
}

proof fn lemma_params(p: Part)
    requires
        sendable(p),
    ensures
        wsp::params_read(pdu::charset_piece(p) + pdu::name_piece(p)) == sent_params(p),
{
    let e = Seq::<u8>::empty();
    let name = pdu::name_piece(p);
    let names = match pdu::part_name(p) {
        Some(n) => seq![("name"@, n)],
        None => seq![],
    };
    assert(wsp::params_read(name) == names) by {
        match pdu::part_name(p) {
            Some(n) => {
                lemma_name_param(n);
            },
            None => {
                assert(wsp::params_read(e) =~= seq![]);
            },
        }
    }
    let s = pdu::charset_piece(p) + name;
    if pdu::is_text_type(p.content_type) {
        assert(wsp::integer_bytes(106) =~= seq![0xeau8]);
        assert(pdu::charset_piece(p) =~= seq![0x81u8, 0xeau8]);
        assert(s.skip(1) =~= seq![0xeau8] + name);
        assert(s.skip(1)[0] == 0xea);
        assert(wsp::param_read(s) == (Some(("charset"@, "UTF-8"@)), 2nat));
        assert(s.skip(2) =~= name);
        assert(wsp::params_read(s) =~= seq![("charset"@, "UTF-8"@)] + names);
    } else {
        assert(s =~= name);
        assert(sent_params(p) =~= names);
    }
}

proof fn lemma_part_type(p: Part)
    requires
        sendable(p),
    ensures
        wsp::sized_type_read(pdu::part_type_bytes(p)) == Some((sent_type(p), sent_params(p))),
        pdu::part_type_bytes(p).len() > 0,
{
    let tail = pdu::charset_piece(p) + pdu::name_piece(p);
    let s = pdu::part_type_bytes(p);
    lemma_params(p);
    assert(s =~= pdu::type_piece(p) + tail);
    wsp::law_type_code_names_the_type(p.content_type, 0);
    match wsp::type_code(p.content_type, 0) {
        Some(c) => {
            assert(s.skip(1) =~= tail);
            assert(s[0] == 128 + c);
        },
        None => {
            let t = wsp::text_bytes(p.content_type);
            let b = encode_utf8(p.content_type);
            wsp::law_text_round_trip(p.content_type, tail);
            assert(s[0] < 128) by {
                if b.len() > 0 && b[0] < 128 {
                    assert(t[0] == b[0]);
                }
            }
            assert(s.skip(t.len() as int) =~= tail);
        },
    }
}

proof fn lemma_trim_angles_before(id: Seq<char>)
    ensures
        pdu::trim_angles_start(id + seq!['>']) == if pdu::trim_angles_start(id).len() > 0 {
            pdu::trim_angles_start(id) + seq!['>']
        } else {
            seq![]
        },
    decreases id.len(),
{
    let t = id + seq!['>'];
    if id.len() == 0 {
        assert(t.skip(1) =~= seq![]);
        assert(pdu::trim_angles_start(t.skip(1)) =~= seq![]);
        assert(t[0] == '>');
    } else {
        assert(t[0] == id[0]);
        if pdu::is_angle(id[0]) {
            assert(t.skip(1) =~= id.skip(1) + seq!['>']);
            lemma_trim_angles_before(id.skip(1));
        }
    }
}

/// The angle brackets that are put around a name come off again, with those it has.
proof fn lemma_trim_angles(id: Seq<char>)
    ensures
        pdu::trim_angles(pdu::bracketed(id)) == pdu::trim_angles(id),
{
    let s = pdu::bracketed(id);
    let t = id + seq!['>'];
    let rest = pdu::trim_angles_start(id);
    assert(s.skip(1) =~= t);
    assert(s[0] == '<');
    assert(pdu::trim_angles_start(s) == pdu::trim_angles_start(t));
    lemma_trim_angles_before(id);
    if rest.len() > 0 {
        assert((rest + seq!['>']).drop_last() =~= rest);
        assert((rest + seq!['>']).last() == '>');
    } else {
        assert(rest =~= seq![]);
    }
}

/// A part whose name has no angle brackets at its ends keeps it.
pub proof fn law_a_name_without_brackets_is_kept(p: Part)
    requires
        p.content_id matches Some(id) ==> unbracketed(id),
    ensures
        sent_part(p).content_id == p.content_id,
        sent_part(p).content_location == p.content_location,
        sent_part(p).data == p.data,
        text::eq_nocase(sent_part(p).content_type, p.content_type),
{
    wsp::law_type_code_names_the_type(p.content_type, 0);
}

proof fn lemma_location(l: Option<Seq<char>>, p: Part)
    requires
        l matches Some(t) ==> plain(t),
        p.content_location.is_none(),
    ensures
        pdu::part_headers_read(
            match l {
                Some(t) => seq![0x8eu8] + wsp::text_bytes(t),
                None => seq![],
            },
            p,
        ) == (Part { content_location: l, ..p }),
{
    if let Some(t) = l {
        let e = Seq::<u8>::empty();
        let s = seq![0x8eu8] + wsp::text_bytes(t);
        assert(s.skip(1) =~= wsp::text_bytes(t) + e);
        wsp::law_text_round_trip(t, e);
        assert(s.skip(s.len() as int) =~= e);
        let p1 = Part { content_location: l, ..p };
        assert(pdu::part_header_read(s, p) == (true, p1, s.len()));
        assert(pdu::part_headers_read(e, p1) == p1);
    } else {
        assert(pdu::part_headers_read(Seq::<u8>::empty(), p) == p);
    }
}

proof fn lemma_part_headers(p: Part, q: Part)
    requires
        sendable(p),
        q.content_id.is_none(),
        q.content_location.is_none(),
    ensures
        pdu::part_headers_read(pdu::id_piece(p) + pdu::location_piece(p), q) == (Part {
            content_id: sent_id(p.content_id),
            content_location: p.content_location,
            ..q
        }),
{
    let loc = pdu::location_piece(p);
    let s = pdu::id_piece(p) + loc;
    match p.content_id {
        Some(id) => {
            let b = wsp::text_bytes(pdu::bracketed(id));
            let q1 = Part { content_id: sent_id(p.content_id), ..q };
            lemma_location(p.content_location, q1);
            lemma_trim_angles(id);
            assert(pdu::bracketed(id)[0] == '<');
            assert(!pdu::bracketed(id).contains('\0')) by {
                assert forall|i: int| 0 <= i < pdu::bracketed(id).len() implies pdu::bracketed(
                    id,
                )[i] != '\0' by {
                    if 0 < i < id.len() + 1 {
                        assert(pdu::bracketed(id)[i] == id[i - 1]);
                        assert(id.contains(id[i - 1]));
                    }
                }
            }
            wsp::law_text_round_trip(pdu::bracketed(id), loc);
            assert(s.skip(1) =~= b + loc);
            assert(s[0] == 0xc0);
            assert(s.skip(1 + b.len() as int) =~= loc);
            assert(pdu::part_header_read(s, q) == (true, q1, 1 + b.len()));
        },
        None => {
            lemma_location(p.content_location, q);
            assert(s =~= loc);
        },
    }
}

proof fn lemma_part(p: Part)
    requires
        sendable(p),
    ensures
        pdu::part_of(pdu::part_header_bytes(p), p.data) == sent_part(p),
{
    let t = pdu::part_type_bytes(p);
    let tail = pdu::id_piece(p) + pdu::location_piece(p);
    let len = wsp::length_bytes(t.len());
    let s = pdu::part_header_bytes(p);
    assert(s =~= len + (t + tail));
    wsp::law_length_round_trip(t.len(), t + tail);
    lemma_part_type(p);
    assert(s.subrange(len.len() as int, (len.len() + t.len()) as int) =~= t);
    assert(s[0] < 0x20);
    assert(wsp::type_read(s) == (Some((sent_type(p), sent_params(p))), len.len() + t.len()));
    assert(s.skip((len.len() + t.len()) as int) =~= tail);
    let q = Part {
        content_type: sent_type(p),
        params: sent_params(p),
        content_id: None,
        content_location: None,
        data: p.data,
    };
    lemma_part_headers(p, q);
    reveal(pdu::part_of);
}

proof fn lemma_entry(p: Part, rest: Seq<u8>)
    requires
        sendable(p),
    ensures
        pdu::entry_read(pdu::entry_bytes(p) + rest) == Some(
            (sent_part(p), pdu::entry_bytes(p).len()),
        ),
{
    let h = pdu::part_header_bytes(p);
    let n1 = wsp::uintvar_bytes(h.len());
    let n2 = wsp::uintvar_bytes(p.data.len());
    let s = pdu::entry_bytes(p) + rest;
    let a = n1.len() + n2.len();
    assert(s =~= n1 + (n2 + h + p.data + rest));
    wsp::law_uintvar_round_trip(h.len(), n2 + h + p.data + rest);
    assert(s.skip(n1.len() as int) =~= n2 + (h + p.data + rest));
    wsp::law_uintvar_round_trip(p.data.len(), h + p.data + rest);
    assert(s.subrange(a as int, (a + h.len()) as int) =~= h);
    assert(s.subrange((a + h.len()) as int, (a + h.len() + p.data.len()) as int) =~= p.data);
    lemma_part(p);
}

proof fn lemma_entries_front(parts: Seq<Part>)
    requires
        parts.len() > 0,
    ensures
        pdu::entries_bytes(parts) == pdu::entry_bytes(parts[0]) + pdu::entries_bytes(parts.skip(1)),
    decreases parts.len(),
{
    if parts.len() == 1 {
        assert(parts.drop_last() =~= Seq::<Part>::empty());
        assert(parts.skip(1) =~= Seq::<Part>::empty());
        assert(pdu::entries_bytes(parts) =~= pdu::entry_bytes(parts[0]) + pdu::entries_bytes(
            parts.skip(1),
        ));
    } else {
        lemma_entries_front(parts.drop_last());
        assert(parts.drop_last().skip(1) =~= parts.skip(1).drop_last());
        assert(parts.drop_last()[0] == parts[0]);
        assert(parts.skip(1).last() == parts.last());
        assert(pdu::entries_bytes(parts) =~= pdu::entry_bytes(parts[0]) + (pdu::entries_bytes(
            parts.skip(1).drop_last(),
        ) + pdu::entry_bytes(parts.last())));
    }
}

proof fn lemma_entries(parts: Seq<Part>)
    requires
        forall|i: int| 0 <= i < parts.len() ==> sendable(#[trigger] parts[i]),
    ensures
        pdu::entries_read(pdu::entries_bytes(parts), parts.len()) == parts.map_values(
            |p: Part| sent_part(p),
        ),
    decreases parts.len(),
{
    let sent = parts.map_values(|p: Part| sent_part(p));
    if parts.len() == 0 {
        assert(pdu::entries_read(pdu::entries_bytes(parts), 0) =~= sent);
    } else {
        let rest = pdu::entries_bytes(parts.skip(1));
        let first = pdu::entry_bytes(parts[0]);
        lemma_entries_front(parts);
        lemma_entry(parts[0], rest);
        assert((first + rest).skip(first.len() as int) =~= rest);
        assert forall|i: int| 0 <= i < parts.skip(1).len() implies sendable(
            #[trigger] parts.skip(1)[i],
        ) by {
            assert(parts.skip(1)[i] == parts[i + 1]);
        }
        lemma_entries(parts.skip(1));
        assert(seq![sent_part(parts[0])] + parts.skip(1).map_values(|p: Part| sent_part(p))
            =~= sent);
    }
}

proof fn lemma_multipart(parts: Seq<Part>)
    requires
        parts.len() <= 256,
        forall|i: int| 0 <= i < parts.len() ==> sendable(#[trigger] parts[i]),
    ensures
        pdu::multipart_read(wsp::uintvar_bytes(parts.len()) + pdu::entries_bytes(parts))
            == parts.map_values(|p: Part| sent_part(p)),
{
    let n = wsp::uintvar_bytes(parts.len());
    let rest = pdu::entries_bytes(parts);
    wsp::law_uintvar_round_trip(parts.len(), rest);
    assert((n + rest).skip(n.len() as int) =~= rest);
    lemma_entries(parts);
}

// ------------------------------------------------------------------ a submission

/// The content type of the whole, with its parameters.
pub open spec fn sent_body_type(parts: Seq<Part>) -> (Seq<char>, Seq<(Seq<char>, Seq<char>)>) {
    if parts.len() > 1 {
        (
            "application/vnd.wap.multipart.related"@,
            seq![("type"@, "application/smil"@)] + match parts[0].content_id {
                Some(id) => seq![("start"@, pdu::bracketed(id))],
                None => seq![],
            },
        )
    } else {
        ("application/vnd.wap.multipart.mixed"@, seq![])
    }
}

proof fn lemma_smil_is_legible()
    ensures
        wsp::legible("application/smil"@),
{
    reveal_strlit("application/smil");
}

proof fn lemma_start_params(parts: Seq<Part>)
    requires
        parts.len() > 1,
        sendable(parts[0]),
    ensures
        wsp::params_read(
            seq![0x89u8] + wsp::text_bytes("application/smil"@) + pdu::start_piece(parts),
        ) == sent_body_type(parts).1,
{
    let e = Seq::<u8>::empty();
    let start = pdu::start_piece(parts);
    let b = wsp::text_bytes("application/smil"@);
    let s = seq![0x89u8] + b + start;
    let starts = match parts[0].content_id {
        Some(id) => seq![("start"@, pdu::bracketed(id))],
        None => seq![],
    };
    assert(wsp::params_read(start) == starts) by {
        match parts[0].content_id {
            Some(id) => {
                let t = pdu::bracketed(id);
                assert(t[0] == '<');
                assert(!t.contains('\0')) by {
                    assert forall|i: int| 0 <= i < t.len() implies t[i] != '\0' by {
                        if 0 < i < id.len() + 1 {
                            assert(t[i] == id[i - 1]);
                            assert(id.contains(id[i - 1]));
                        }
                    }
                }
                wsp::law_text_reads_as_encoded(t, e);
                assert(start.skip(1) =~= wsp::text_bytes(t) + e);
                assert(wsp::param_read(start) == (Some(("start"@, t)), start.len()));
                assert(start.skip(start.len() as int) =~= e);
                assert(wsp::params_read(e) =~= seq![]);
                assert(wsp::params_read(start) =~= starts);
            },
            None => {
                assert(wsp::params_read(e) =~= seq![]);
            },
        }
    }
    lemma_smil_is_legible();
    wsp::law_text_reads_as_encoded("application/smil"@, start);
    assert(s.skip(1) =~= b + start);
    assert(s[0] == 0x89);
    assert(wsp::param_read(s) == (Some(("type"@, "application/smil"@)), 1 + b.len()));
    assert(s.skip(1 + b.len() as int) =~= start);
}

proof fn lemma_body_type(parts: Seq<Part>)
    requires
        parts.len() > 0 ==> sendable(parts[0]),
    ensures
        wsp::sized_type_read(pdu::body_type_bytes(parts)) == Some(sent_body_type(parts)),
        pdu::is_multipart_type(sent_body_type(parts).0),
{
    let s = pdu::body_type_bytes(parts);
    assert(pdu::is_multipart_type(sent_body_type(parts).0)) by {
        reveal_strlit("application/vnd.wap.multipart");
        reveal_strlit("application/vnd.wap.multipart.related");
        reveal_strlit("application/vnd.wap.multipart.mixed");
        let p = "application/vnd.wap.multipart"@;
        assert("application/vnd.wap.multipart.related"@.take(p.len() as int) =~= p);
        assert("application/vnd.wap.multipart.mixed"@.take(p.len() as int) =~= p);
    }
    if parts.len() > 1 {
        lemma_start_params(parts);
        assert(s.skip(1) =~= seq![0x89u8] + wsp::text_bytes("application/smil"@) + pdu::start_piece(
            parts,
        ));
        assert(s[0] == 0xb3);
    } else {
        assert(s.skip(1) =~= Seq::<u8>::empty());
        assert(wsp::params_read(Seq::<u8>::empty()) =~= seq![]);
    }
}

proof fn lemma_content(parts: Seq<Part>, body: Seq<u8>, m: Message)
    requires
        parts.len() > 0 ==> sendable(parts[0]),
        pdu::body_type_bytes(parts).len() < 0x100_0000_0000_0000,
        pdu::body_type_bytes(parts).len() <= usize::MAX,
    ensures
        pdu::headers_read(
            seq![field::CONTENT_TYPE] + wsp::length_bytes(pdu::body_type_bytes(parts).len())
                + pdu::body_type_bytes(parts) + body,
            m,
        ) == Some(
            (
                Message {
                    content_type: Some(sent_body_type(parts).0),
                    content_type_params: sent_body_type(parts).1,
                    ..m
                },
                Some(body),
            ),
        ),
{
    let t = pdu::body_type_bytes(parts);
    let len = wsp::length_bytes(t.len());
    let s = seq![field::CONTENT_TYPE] + len + t + body;
    let r = len + (t + body);
    let m1 = Message {
        content_type: Some(sent_body_type(parts).0),
        content_type_params: sent_body_type(parts).1,
        ..m
    };
    wsp::law_length_round_trip(t.len(), t + body);
    lemma_body_type(parts);
    assert(r.subrange(len.len() as int, (len.len() + t.len()) as int) =~= t);
    assert(r[0] < 0x20);
    assert(wsp::type_read(r) == (Some(sent_body_type(parts)), len.len() + t.len()));
    assert(pdu::field_read(field::CONTENT_TYPE, r, m) == (Flow::Body, m1, len.len() + t.len())) by {
        reveal(pdu::field_read);
    }
    assert(s.skip(1) =~= r);
    assert(s[0] == field::CONTENT_TYPE);
    assert(s.skip((1 + len.len() + t.len()) as int) =~= body);
}

/// A submission whose texts can be carried and whose sizes can be written.
pub open spec fn submittable(req: SendReq<'_>) -> bool {
    let parts = pdu::part_views(req.parts@);
    &&& headers_encodable(
        req.transaction_id@,
        text::opt_str(req.from),
        text::texts(req.to@),
        text::opt_str(req.subject),
    )
    &&& parts.len() <= 256
    &&& forall|i: int| 0 <= i < parts.len() ==> sendable(#[trigger] parts[i])
    &&& pdu::body_type_bytes(parts).len() < 0x100_0000_0000_0000
    &&& pdu::body_type_bytes(parts).len() <= usize::MAX
}

/// A submission as its recipient has it.
pub open spec fn submitted(req: SendReq<'_>) -> Message {
    let parts = pdu::part_views(req.parts@);
    Message {
        content_type: Some(sent_body_type(parts).0),
        content_type_params: sent_body_type(parts).1,
        parts: parts.map_values(|p: Part| sent_part(p)),
        ..sent_headers(
            req.transaction_id@,
            text::opt_str(req.from),
            text::texts(req.to@),
            text::opt_str(req.subject),
        )
    }
}

/// An M-Send.req is decoded to what it was encoded from: the transaction, the parties, the subject,
/// and every part with its type, its names and its data.
pub proof fn law_a_submission_is_decodable(req: SendReq<'_>)
    requires
        submittable(req),
    ensures
        pdu::message_of(req.bytes()) == Some(submitted(req)),
{
    let parts = pdu::part_views(req.parts@);
    let m = sent_headers(
        req.transaction_id@,
        text::opt_str(req.from),
        text::texts(req.to@),
        text::opt_str(req.subject),
    );
    let body = wsp::uintvar_bytes(parts.len()) + pdu::entries_bytes(parts);
    let content = seq![field::CONTENT_TYPE] + wsp::length_bytes(pdu::body_type_bytes(parts).len())
        + pdu::body_type_bytes(parts) + body;
    lemma_send_headers(
        req.transaction_id@,
        text::opt_str(req.from),
        text::texts(req.to@),
        text::opt_str(req.subject),
        req.delivery_report,
        req.read_report,
        content,
    );
    lemma_content(parts, body, m);
    lemma_multipart(parts);
    lemma_body_type(parts);
    assert(pdu::send_body_bytes(parts) =~= content);
}

/// The texts of a submission are clean: no control characters in them, and no byte order mark where
/// they start.
pub open spec fn has_clean_texts(req: SendReq<'_>) -> bool {
    let parts = pdu::part_views(req.parts@);
    &&& wsp::is_clean(req.transaction_id@)
    &&& text::opt_str(req.from) matches Some(a) ==> wsp::is_clean(text::trim(a))
    &&& forall|i: int|
        0 <= i < req.to@.len() ==> wsp::is_clean(text::trim(#[trigger] text::texts(req.to@)[i]))
    &&& text::opt_str(req.subject) matches Some(s) ==> wsp::is_clean(s)
    &&& forall|i: int| 0 <= i < parts.len() ==> has_clean_names(#[trigger] parts[i])
}

pub open spec fn has_clean_names(p: Part) -> bool {
    &&& wsp::is_clean(p.content_type)
    &&& pdu::part_name(p) matches Some(n) ==> wsp::is_clean(n)
    &&& p.content_id matches Some(id) ==> wsp::is_clean(id)
    &&& p.content_location matches Some(l) ==> wsp::is_clean(l)
}

/// The lengths in a submission can be written, and it has at most as many parts as are read.
pub open spec fn has_writable_sizes(req: SendReq<'_>) -> bool {
    let parts = pdu::part_views(req.parts@);
    &&& text::opt_str(req.from) matches Some(a) ==> wsp::has_writable_size(pdu::formatted(a))
        && wsp::encoded_bytes(pdu::formatted(a)).len() + 1 < 0x100_0000_0000_0000
        && wsp::encoded_bytes(pdu::formatted(a)).len() + 1 <= usize::MAX
    &&& forall|i: int|
        0 <= i < req.to@.len() ==> wsp::has_writable_size(
            pdu::formatted(#[trigger] text::texts(req.to@)[i]),
        )
    &&& text::opt_str(req.subject) matches Some(s) ==> wsp::has_writable_size(s)
    &&& parts.len() <= 256
    &&& forall|i: int| 0 <= i < parts.len() ==> has_writable_part(#[trigger] parts[i])
    &&& pdu::body_type_bytes(parts).len() < 0x100_0000_0000_0000
    &&& pdu::body_type_bytes(parts).len() <= usize::MAX
}

pub open spec fn has_writable_part(p: Part) -> bool {
    &&& pdu::part_header_bytes(p).len() < 0x100_0000_0000_0000
    &&& pdu::part_header_bytes(p).len() <= usize::MAX
    &&& p.data.len() < 0x100_0000_0000_0000
    &&& p.data.len() <= usize::MAX
}

proof fn lemma_formatted_is_clean(a: Seq<char>)
    requires
        wsp::is_clean(text::trim(a)),
    ensures
        wsp::is_clean(pdu::formatted(a)),
{
    reveal_strlit("/TYPE=PLMN");
    let t = text::trim(a);
    let f = t + "/TYPE=PLMN"@;
    assert forall|i: int| 0 <= i < f.len() implies !wsp::is_control(#[trigger] f[i]) by {
        if i < t.len() {
            assert(f[i] == t[i]);
        } else {
            assert(f[i] == "/TYPE=PLMN"@[i - t.len()]);
        }
    }
    if t.len() > 0 {
        assert(f[0] == t[0]);
    } else {
        assert(f[0] == '/');
    }
}

/// A submission whose texts are clean is decoded to what it was encoded from, whatever its parts
/// hold and whatever script it is written in: its transaction, the parties as they are addressed, the
/// subject unless it is empty, and as many parts, each with its data and, up to case, its type.
pub proof fn law_a_clean_submission_is_decodable(req: SendReq<'_>)
    requires
        has_clean_texts(req),
        has_writable_sizes(req),
    ensures
        pdu::message_of(req.bytes()) == Some(submitted(req)),
        ({
            let m = submitted(req);
            let parts = pdu::part_views(req.parts@);
            &&& m.message_type == msg_type::SEND_REQ
            &&& m.transaction_id == Some(req.transaction_id@)
            &&& m.from == sent_from(text::opt_str(req.from))
            &&& m.to == sent_to(text::texts(req.to@))
            &&& m.subject == sent_subject(text::opt_str(req.subject))
            &&& m.parts.len() == parts.len()
            &&& forall|i: int|
                0 <= i < parts.len() ==> (#[trigger] m.parts[i]).data == parts[i].data
                    && text::eq_nocase(m.parts[i].content_type, parts[i].content_type)
        }),
{
    let parts = pdu::part_views(req.parts@);
    let to = text::texts(req.to@);
    let e = Seq::<u8>::empty();
    wsp::law_a_clean_text_is_carried(req.transaction_id@, e);
    if let Some(a) = text::opt_str(req.from) {
        lemma_formatted_is_clean(a);
        wsp::law_a_clean_text_is_carried(pdu::formatted(a), e);
    }
    assert forall|i: int| 0 <= i < to.len() implies wsp::encodable(
        pdu::formatted(#[trigger] to[i]),
    ) by {
        lemma_formatted_is_clean(to[i]);
        wsp::law_a_clean_text_is_carried(pdu::formatted(to[i]), e);
    }
    if let Some(s) = text::opt_str(req.subject) {
        wsp::law_a_clean_text_is_carried(s, e);
    }
    assert forall|i: int| 0 <= i < parts.len() implies sendable(#[trigger] parts[i]) by {
        let p = parts[i];
        assert(has_clean_names(p) && has_writable_part(p));
        wsp::law_a_clean_text_is_carried(p.content_type, e);
        if let Some(n) = pdu::part_name(p) {
            wsp::law_a_clean_text_is_carried(n, e);
        }
        if let Some(id) = p.content_id {
            wsp::law_a_clean_text_is_carried(id, e);
        }
        if let Some(l) = p.content_location {
            wsp::law_a_clean_text_is_carried(l, e);
        }
    }
    law_a_submission_is_decodable(req);
    assert forall|i: int| 0 <= i < parts.len() implies (#[trigger] submitted(req).parts[i]).data
        == parts[i].data && text::eq_nocase(
        submitted(req).parts[i].content_type,
        parts[i].content_type,
    ) by {
        wsp::law_type_code_names_the_type(parts[i].content_type, 0);
    }
}

/// A text that was sent as a part of a submission is the text of the part that arrives.
pub proof fn law_a_sent_text_arrives(t: Seq<char>, id: Option<Seq<char>>)
    requires
        t.len() > 0 ==> t[0] != '\u{feff}',
    ensures
        pdu::part_text(
            sent_part(
                Part { content_id: id, ..pdu::plain_part("text/plain"@, encode_utf8(t)) },
            ),
        ) == Some(t),
{
    let p = Part { content_id: id, ..pdu::plain_part("text/plain"@, encode_utf8(t)) };
    reveal_strlit("text/plain");
    reveal_strlit("text/");
    reveal_strlit("charset");
    assert("text/plain"@.take(5) =~= "text/"@);
    lemma_plain_text_code();
    wsp::lemma_byte_order_mark(t);
    text::law_utf8_reads_back(t);
    assert(pdu::file_param(p.params).is_none());
    assert(sent_params(p) =~= seq![("charset"@, "UTF-8"@)]);
    assert(text::lookup(sent_params(p), "charset"@) == Some("UTF-8"@)) by {
        reveal_with_fuel(text::lookup, 2);
    }
}

proof fn lemma_plain_text_code()
    ensures
        wsp::type_code("text/plain"@, 0) == Some(3u8),
{
    reveal_strlit("text/plain");
    reveal_strlit("*/*");
    reveal_strlit("text/*");
    reveal_strlit("text/html");
    reveal_with_fuel(wsp::type_code, 5);
    assert(text::lower("*/*"@).len() == 3);
    assert(text::lower("text/*"@).len() == 6);
    assert(text::lower("text/html"@).len() == 9);
    assert(text::lower("text/plain"@).len() == 10);
    assert(wsp::type_code("text/plain"@, 3) == Some(3u8));
}

// ------------------------------------------------------------------ sizes

proof fn lemma_headers_keep_data(s: Seq<u8>, p: Part)
    ensures
        pdu::part_headers_read(s, p).data == p.data,
    decreases s.len(),
{
    if s.len() > 0 {
        let (ok, p1, n) = pdu::part_header_read(s, p);
        if ok && 0 < n <= s.len() {
            lemma_headers_keep_data(s.skip(n as int), p1);
        }
    }
}

proof fn lemma_entries_inside(s: Seq<u8>, k: nat)
    ensures
        forall|i: int|
            0 <= i < pdu::entries_read(s, k).len() ==> (#[trigger] pdu::entries_read(s, k)[i]).data.len()
                <= s.len(),
    decreases k,
{
    if k > 0 {
        if let Some((p, n)) = pdu::entry_read(s) {
            let rest = pdu::entries_read(s.skip(n as int), (k - 1) as nat);
            assert(p.data.len() <= s.len()) by {
                reveal(pdu::part_of);
                let h = wsp::uintvar_read(s);
                let d = wsp::uintvar_read(s.skip(h.1 as int));
                let a = h.1 + d.1;
                let headers = s.subrange(a as int, (a + h.0.unwrap()) as int);
                let data = s.subrange(
                    (a + h.0.unwrap()) as int,
                    (a + h.0.unwrap() + d.0.unwrap()) as int,
                );
                let (v, m) = wsp::type_read(headers);
                let (t, params) = match v {
                    Some(v) => v,
                    None => ("application/octet-stream"@, seq![]),
                };
                lemma_headers_keep_data(
                    headers.skip(m as int),
                    Part {
                        content_type: t,
                        params,
                        content_id: None,
                        content_location: None,
                        data,
                    },
                );
            }
            lemma_entries_inside(s.skip(n as int), (k - 1) as nat);
            assert forall|i: int| 0 <= i < pdu::entries_read(s, k).len() implies (
            #[trigger] pdu::entries_read(s, k)[i]).data.len() <= s.len() by {
                if i > 0 {
                    assert(pdu::entries_read(s, k)[i] == rest[i - 1]);
                }
            }
        }
    }
}

proof fn lemma_body_inside(s: Seq<u8>, m: Message)
    ensures
        pdu::headers_read(s, m) matches Some((m1, body)) ==> m1.parts == m.parts && (
        body matches Some(b) ==> b.len() <= s.len()),
    decreases s.len(),
{
    if s.len() > 0 {
        let (f, m1, n) = pdu::header_read(s, m);
        assert(m1.parts == m.parts) by {
            reveal(pdu::field_read);
        }
        pdu::lemma_header_bound(s, m);
        if f == Flow::Continue {
            lemma_body_inside(s.skip(n as int), m1);
        }
    }
}

/// No part of a message that was decoded holds more than was received, whatever sizes it declared.
pub proof fn law_parts_stay_inside(data: Seq<u8>)
    ensures
        pdu::message_of(data) matches Some(m) ==> forall|i: int|
            0 <= i < m.parts.len() ==> (#[trigger] m.parts[i]).data.len() <= data.len(),
{
    lemma_body_inside(data, pdu::empty_message());
    if let Some((m, Some(body))) = pdu::headers_read(data, pdu::empty_message()) {
        let (count, n) = wsp::uintvar_read(body);
        wsp::lemma_uintvar_bound(body, 8, 0);
        if let Some(c) = count {
            lemma_entries_inside(
                body.skip(n as int),
                if c <= 256 {
                    c
                } else {
                    256
                },
            );
        }
    }
}

} // verus!
