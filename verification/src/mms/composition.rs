//! What a message that is put together consists of, and what is made of one that comes in.
use vstd::prelude::*;
use vstd::utf8::encode_utf8;

use super::layout;
use super::manager;
use super::manager::{SendAttachment, SendRequest};
use super::pdu;
use super::wsp;
use super::PushError;
use crate::config::{Mms, ModemMatch};
use crate::db::{Direction, NewMessage};
use crate::state;
use crate::text;

verus! {

// ------------------------------------------------------------------ messages that are sent

proof fn lemma_attached(atts: Seq<SendAttachment>, data: Seq<Vec<u8>>, n: nat, i: int)
    requires
        0 <= i < n,
    ensures
        manager::attached_parts(atts, data, n).len() == n,
        manager::attached_parts(atts, data, n)[i].content_type == atts[i].content_type@,
        manager::attached_parts(atts, data, n)[i].data == data[i]@,
        manager::attached_parts(atts, data, n)[i].content_id == Some("part"@ + text::dec(i as nat)),
        manager::attached_parts(atts, data, n)[i].content_location.is_none(),
        match atts[i].name {
            Some(name) => manager::attached_parts(atts, data, n)[i].params == seq![
                ("name"@, name@),
            ],
            None => manager::attached_parts(atts, data, n)[i].params.len() == 0,
        },
    decreases n,
{
    lemma_attached_len(atts, data, (n - 1) as nat);
    if i < n - 1 {
        lemma_attached(atts, data, (n - 1) as nat, i);
    }
}

proof fn lemma_attached_len(atts: Seq<SendAttachment>, data: Seq<Vec<u8>>, n: nat)
    ensures
        manager::attached_parts(atts, data, n).len() == n,
    decreases n,
{
    if n > 0 {
        lemma_attached_len(atts, data, (n - 1) as nat);
    }
}

/// A message holds, in this order, its presentation where there are several things to present, its
/// text where it has one, and its attachments in the order given; nothing else.
pub proof fn law_a_message_holds_what_was_given(req: SendRequest, data: Seq<Vec<u8>>)
    ensures
        ({
            let texts: int = if req.text matches Some(t) && t@.len() > 0 {
                1
            } else {
                0
            };
            let presentations: int = if texts + req.attachments@.len() > 1 {
                1
            } else {
                0
            };
            let parts = manager::message_parts(req, data);
            &&& parts.len() == presentations + texts + req.attachments@.len()
            &&& presentations == 1 ==> parts[0].content_type == "application/smil"@
                && parts[0].content_id == Some("smil"@) && parts[0].params == seq![
                ("name"@, "presentation.smil"@),
            ] && parts[0].data == encode_utf8(pdu::smil_text(parts.skip(1)))
            &&& texts == 1 ==> parts[presentations].content_type == "text/plain"@
                && parts[presentations].data == encode_utf8(req.text.unwrap()@)
                && parts[presentations].content_id == Some("text0"@) && parts[presentations].params
                == seq![("name"@, "text0.txt"@)]
        }),
{
    lemma_attached_len(req.attachments@, data, req.attachments@.len());
    let content = manager::content_parts(req, data);
    if content.len() > 1 {
        assert((seq![manager::smil_part(content)] + content).skip(1) =~= content);
    }
}

/// The part of every attachment has the content type and the name of that attachment, and its data is
/// the data given for that attachment, byte for byte.
pub proof fn law_an_attachment_keeps_its_own_data(req: SendRequest, data: Seq<Vec<u8>>, i: int)
    requires
        0 <= i < req.attachments@.len(),
        data.len() == req.attachments@.len(),
    ensures
        ({
            let texts: int = if req.text matches Some(t) && t@.len() > 0 {
                1
            } else {
                0
            };
            let presentations: int = if texts + req.attachments@.len() > 1 {
                1
            } else {
                0
            };
            let part = manager::message_parts(req, data)[presentations + texts + i];
            &&& part.content_type == req.attachments@[i].content_type@
            &&& part.data == data[i]@
            &&& match req.attachments@[i].name {
                Some(name) => part.params == seq![("name"@, name@)],
                None => part.params.len() == 0,
            }
            &&& part.content_location.is_none()
        }),
{
    let n = req.attachments@.len();
    lemma_attached(req.attachments@, data, n, i);
}

/// No two attachments go by the same identifier.
pub proof fn law_attachments_are_told_apart(
    atts: Seq<SendAttachment>,
    data: Seq<Vec<u8>>,
    i: int,
    j: int,
)
    requires
        0 <= j < i < atts.len(),
    ensures
        manager::attached_parts(atts, data, atts.len())[i].content_id
            != manager::attached_parts(atts, data, atts.len())[j].content_id,
{
    let n = atts.len();
    lemma_attached(atts, data, n, i);
    lemma_attached(atts, data, n, j);
    text::lemma_dec_reads_back(i as nat);
    text::lemma_dec_reads_back(j as nat);
    let a = "part"@ + text::dec(i as nat);
    let b = "part"@ + text::dec(j as nat);
    if a == b {
        assert(a.skip("part"@.len() as int) =~= text::dec(i as nat));
        assert(b.skip("part"@.len() as int) =~= text::dec(j as nat));
    }
}

/// The size of a message is that of the data of its parts together: it grows by the data of each.
pub proof fn law_every_part_counts(parts: Seq<pdu::Part>, more: Seq<pdu::Part>, p: pdu::Part)
    ensures
        manager::total_size(seq![]) == 0,
        manager::total_size(seq![p]) == p.data.len(),
        manager::total_size(parts + more) == manager::total_size(parts) + manager::total_size(more),
    decreases more.len(),
{
    assert(seq![p].drop_last() =~= seq![]);
    reveal_with_fuel(manager::total_size, 2);
    if more.len() > 0 {
        law_every_part_counts(parts, more.drop_last(), p);
        assert((parts + more).drop_last() =~= parts + more.drop_last());
    } else {
        assert(parts + more =~= parts);
    }
}

/// Every part that can be shown stands in the presentation by its identifier, in the element that its
/// kind calls for.
pub proof fn law_every_part_is_presented(
    parts: Seq<pdu::Part>,
    i: int,
    cid: Seq<char>,
    element: Seq<char>,
)
    requires
        0 <= i < parts.len(),
        parts[i].content_id == Some(cid),
        element == (if text::has_prefix(parts[i].content_type, "image/"@) {
            "      <img src=\"cid:"@ + cid + "\" region=\"Image\"/>\n"@
        } else if text::has_prefix(parts[i].content_type, "text/"@) {
            "      <text src=\"cid:"@ + cid + "\" region=\"Text\"/>\n"@
        } else if text::has_prefix(parts[i].content_type, "audio/"@) || text::has_prefix(
            parts[i].content_type,
            "video/"@,
        ) {
            "      <video src=\"cid:"@ + cid + "\" region=\"Image\"/>\n"@
        } else {
            seq![]
        }),
    ensures
        exists|k: int|
            0 <= k <= pdu::smil_text(parts).len() - element.len() && #[trigger] pdu::smil_text(
                parts,
            ).subrange(k, k + element.len()) == element,
{
    assert(element == pdu::smil_element(parts[i]));
    lemma_element(parts, i);
    let k = choose|k: int|
        0 <= k <= pdu::smil_elements(parts).len() - element.len() && #[trigger] pdu::smil_elements(
            parts,
        ).subrange(k, k + element.len()) == element;
    let before =
        "<smil>\n  <head>\n    <layout>\n      <root-layout width=\"320px\" height=\"480px\"/>\n"@
        + "      <region id=\"Image\" top=\"0%\" left=\"0%\" height=\"80%\" width=\"100%\" fit=\"meet\"/>\n"@
        + "      <region id=\"Text\" top=\"80%\" left=\"0%\" height=\"20%\" width=\"100%\" fit=\"scroll\"/>\n"@
        + "    </layout>\n  </head>\n  <body>\n    <par dur=\"8000ms\">\n"@;
    let n = before.len() as int;
    assert(pdu::smil_text(parts).subrange(n + k, n + k + element.len())
        =~= pdu::smil_elements(parts).subrange(k, k + element.len()));
}

proof fn lemma_element(parts: Seq<pdu::Part>, i: int)
    requires
        0 <= i < parts.len(),
    ensures
        exists|k: int|
            0 <= k <= pdu::smil_elements(parts).len() - pdu::smil_element(parts[i]).len()
                && #[trigger] pdu::smil_elements(parts).subrange(
                k,
                k + pdu::smil_element(parts[i]).len(),
            ) == pdu::smil_element(parts[i]),
    decreases parts.len(),
{
    let element = pdu::smil_element(parts[i]);
    let d = parts.drop_last();
    let all = pdu::smil_elements(parts);
    let n = pdu::smil_elements(d).len() as int;
    if i == parts.len() - 1 {
        assert(all.subrange(n, n + element.len()) =~= element);
    } else {
        lemma_element(d, i);
        let k = choose|k: int|
            0 <= k <= n - element.len() && #[trigger] pdu::smil_elements(d).subrange(
                k,
                k + element.len(),
            ) == element;
        assert(all.subrange(k, k + element.len()) =~= pdu::smil_elements(d).subrange(
            k,
            k + element.len(),
        ));
    }
}

// ------------------------------------------------------------------ messages that come in

/// A push is two bytes, the length of its headers, the headers and its body; whatever the headers hold
/// beside the content type, the body is what follows them.
pub proof fn law_a_push_is_read(
    transaction: u8,
    kind: u8,
    headers: Seq<u8>,
    content_type: Seq<char>,
    params: Seq<(Seq<char>, Seq<char>)>,
    body: Seq<u8>,
)
    requires
        kind == 6 || kind == 7,
        0 < headers.len() < 128,
        wsp::type_read(headers).0 == Some((content_type, params)),
    ensures
        super::push_of(seq![transaction, kind, headers.len() as u8] + headers + body) == Ok::<
            (u8, Seq<char>, Seq<u8>),
            PushError,
        >((transaction, content_type, body)),
{
    let data = seq![transaction, kind, headers.len() as u8] + headers + body;
    let n = headers.len() as u8;
    layout::law_a_variable_number_is_read(128, 128, 128, n, headers + body);
    assert(data.skip(2) =~= seq![n] + (headers + body));
    assert(data.subrange(3, 3 + headers.len() as int) =~= headers);
    assert(data.skip(3 + headers.len() as int) =~= body);
}

/// A short message is a push where it is long enough to be one and its second byte says so, and a push
/// is about a multimedia message where its content type says so.
pub proof fn law_a_push_is_recognised(data: Seq<u8>, content_type: Seq<char>)
    ensures
        super::is_push(data) <==> data.len() > 3 && (data[1] == 6 || data[1] == 7),
        super::is_mms_type(content_type) <==> text::lower(content_type)
            == "application/vnd.wap.mms-message"@ || exists|i: int|
            0 <= i <= content_type.len() - 11 && #[trigger] content_type.subrange(i, i + 11)
                == "mms-message"@,
{
    reveal_strlit("mms-message");
    reveal_strlit("application/vnd.wap.mms-message");
    assert(text::lower("application/vnd.wap.mms-message"@)
        =~= "application/vnd.wap.mms-message"@);
    text::law_a_text_is_found_where_it_stands(content_type, "mms-message"@);
}

/// A notification is handed on as what its push carries, where that is about a multimedia message and
/// can be read; a push about anything else is none.
pub proof fn law_a_notification_is_found_in_its_push(
    data: Seq<u8>,
    transaction: u8,
    content_type: Seq<char>,
    body: Seq<u8>,
)
    requires
        super::push_of(data) == Ok::<(u8, Seq<char>, Seq<u8>), PushError>(
            (transaction, content_type, body),
        ),
    ensures
        !super::is_mms_type(content_type) ==> (manager::notification_in(data) matches Ok(found)
            && found.is_none()),
        super::is_mms_type(content_type) ==> match pdu::message_of(body) {
            Some(m) => manager::notification_in(data) matches Ok(found) && found == Some((m, body)),
            None => manager::notification_in(data) is Err,
        },
{
}

/// A message that was fetched is one where it says that it is or has parts; it was refused where its
/// status is there and is not that all went well. A submission went well where its answer says so or
/// says nothing.
pub proof fn law_a_status_is_read(m: pdu::Message, body: Seq<u8>)
    ensures
        manager::carries_message(m) <==> m.message_type == 0x84 || m.parts.len() > 0,
        manager::refusal_in(m) == (if m.retrieve_status.is_some() && m.retrieve_status != Some(
            0x80u8,
        ) {
            m.retrieve_status
        } else {
            None
        }),
        manager::response_in(body) == (if pdu::message_of(body) matches Some(r)
            && r.response_status.is_some() {
            pdu::message_of(body).unwrap().response_status.unwrap()
        } else {
            0x80u8
        }),
{
}

/// What is kept of a message is its parts other than the presentation, all of them in their order.
pub proof fn law_all_but_the_presentation_is_kept(parts: Seq<pdu::Part>)
    ensures
        forall|j: int|
            manager::stored_places(parts).contains(j) <==> 0 <= j < parts.len() && !(exists|k: int|
                0 <= k <= parts[j].content_type.len() - 4 && #[trigger] parts[j].content_type.subrange(
                    k,
                    k + 4,
                ) == "smil"@),
        forall|a: int, b: int|
            0 <= a < b < manager::stored_places(parts).len() ==> (#[trigger] manager::stored_places(
                parts,
            )[a]) < (#[trigger] manager::stored_places(parts)[b]),
    decreases parts.len(),
{
    let places = manager::stored_places(parts);
    if parts.len() > 0 {
        let d = parts.drop_last();
        let n = parts.len() - 1;
        law_all_but_the_presentation_is_kept(d);
        let before = manager::stored_places(d);
        reveal_strlit("smil");
        text::law_a_text_is_found_where_it_stands(parts.last().content_type, "smil"@);
        assert forall|a: int| 0 <= a < before.len() implies 0 <= #[trigger] before[a] < n by {
            assert(before.contains(before[a]));
        }
        assert forall|j: int| places.contains(j) <==> 0 <= j < parts.len() && !(exists|k: int|
            0 <= k <= parts[j].content_type.len() - 4 && #[trigger] parts[j].content_type.subrange(
                k,
                k + 4,
            ) == "smil"@) by {
            if j < n {
                assert(0 <= j ==> d[j] == parts[j]);
            }
            if before.contains(j) {
                let a = choose|a: int| 0 <= a < before.len() && before[a] == j;
                assert(places[a] == j);
            }
            if places.contains(j) {
                let a = choose|a: int| 0 <= a < places.len() && places[a] == j;
                if a < before.len() {
                    assert(before[a] == j);
                }
            }
            if j == n && places.len() > before.len() {
                assert(places[before.len() as int] == n);
            }
        }
    }
}

// ------------------------------------------------------------------ attachments in base64

/// The character that stands for a number below sixty-four.
pub open spec fn base64_symbol(n: int) -> u8 {
    if n < 26 {
        (0x41 + n) as u8
    } else if n < 52 {
        (0x61 + n - 26) as u8
    } else if n < 62 {
        (0x30 + n - 52) as u8
    } else if n == 62 {
        0x2b
    } else {
        0x2f
    }
}

/// Bytes in base64: four characters for every three bytes, and for one or two that are left over, with
/// the places that are not needed filled up.
pub open spec fn base64_text(b: Seq<u8>) -> Seq<u8>
    decreases b.len(),
{
    if b.len() == 0 {
        seq![]
    } else if b.len() == 1 {
        seq![base64_symbol(b[0] as int / 4), base64_symbol(b[0] as int % 4 * 16), 0x3du8, 0x3du8]
    } else if b.len() == 2 {
        seq![
            base64_symbol(b[0] as int / 4),
            base64_symbol(b[0] as int % 4 * 16 + b[1] as int / 16),
            base64_symbol(b[1] as int % 16 * 4),
            0x3du8,
        ]
    } else {
        seq![
            base64_symbol(b[0] as int / 4),
            base64_symbol(b[0] as int % 4 * 16 + b[1] as int / 16),
            base64_symbol(b[1] as int % 16 * 4 + b[2] as int / 64),
            base64_symbol(b[2] as int % 64),
        ] + base64_text(b.skip(3))
    }
}

proof fn lemma_symbol(n: int)
    requires
        0 <= n < 64,
    ensures
        manager::symbol(base64_symbol(n)) == Some(n as nat),
{
}

/// An attachment that is handed over in base64 is the bytes it was made of, whatever they are.
pub proof fn law_base64_gives_the_bytes(b: Seq<u8>)
    ensures
        manager::base64_bytes(base64_text(b)) == Some(b),
    decreases b.len(),
{
    let t = base64_text(b);
    if b.len() == 1 {
        lemma_symbol(b[0] as int / 4);
        lemma_symbol(b[0] as int % 4 * 16);
        assert(manager::last_quad(t).unwrap() =~= b);
    } else if b.len() == 2 {
        lemma_symbol(b[0] as int / 4);
        lemma_symbol(b[0] as int % 4 * 16 + b[1] as int / 16);
        lemma_symbol(b[1] as int % 16 * 4);
        assert(manager::last_quad(t).unwrap() =~= b);
    } else if b.len() > 2 {
        lemma_symbol(b[0] as int / 4);
        lemma_symbol(b[0] as int % 4 * 16 + b[1] as int / 16);
        lemma_symbol(b[1] as int % 16 * 4 + b[2] as int / 64);
        lemma_symbol(b[2] as int % 64);
        let first = t.take(4);
        assert(manager::last_quad(first).unwrap() =~= b.take(3));
        assert(t.skip(4) =~= base64_text(b.skip(3)));
        law_base64_gives_the_bytes(b.skip(3));
        if b.len() == 3 {
            assert(b.skip(3) =~= seq![]);
            assert(t =~= first);
            assert(b.take(3) =~= b);
        } else {
            assert(b.take(3) + b.skip(3) =~= b);
        }
    } else {
        assert(b =~= seq![]);
    }
}

// ------------------------------------------------------------------ what is kept of a notification

/// A notification is kept as an incoming multimedia message that is yet to be fetched: from the sender
/// it names, without the kind of the address, or else from the number it came from; under its
/// transaction, or else its message; with its subject and as it came.
pub proof fn law_a_notification_is_kept(
    r: NewMessage,
    modem: ModemMatch,
    m: pdu::Message,
    number: Seq<char>,
    body: Seq<u8>,
    sender: Seq<char>,
)
    requires
        manager::is_record(r, modem, m, number, body),
        modem.country_code.is_none(),
        !sender.contains('/'),
        text::is_trimmed(sender),
    ensures
        r.kind@ == "mms"@ && r.direction == Direction::Incoming && r.status@ == "notified"@,
        m.from == Some(sender + "/TYPE=PLMN"@) ==> r.peer@ == sender,
        m.from == Some(sender) ==> r.peer@ == sender,
        m.from.is_none() && number == sender ==> r.peer@ == sender,
        text::opt_text(r.subject) == m.subject,
        r.text.is_none() && r.own_number.is_none(),
        r.timestamp.is_some() <==> m.date.is_some(),
        m.transaction_id.is_some() ==> text::opt_text(r.external_id) == m.transaction_id,
        m.transaction_id.is_none() ==> text::opt_text(r.external_id) == m.message_id,
        r.raw matches Some(kept) && kept@ == body,
{
    reveal_strlit("/TYPE=PLMN");
    text::lemma_trimmed(sender);
    text::lemma_split_once_none(sender, '/');
    assert(sender.take(sender.len() as int) =~= sender);
    let whole = sender + "/TYPE=PLMN"@;
    assert(whole[sender.len() as int] == '/');
    assert forall|j: int| 0 <= j < sender.len() implies whole[j] != '/' by {
        assert(sender.contains(sender[j]));
    }
    text::lemma_find_unique(whole, '/', sender.len() as int);
    assert(whole.take(sender.len() as int) =~= sender);
    state::law_without_a_code_nothing_changes(sender, modem.national_prefix@);
}

/// A submission that the messaging centre does not comment on is taken as accepted, and one that it
/// gives a status is what that says. A refusal is told in its own words, or else by its status.
pub proof fn law_a_refusal_is_told_in_its_own_words(body: Seq<u8>, m: pdu::Message, s: u8, words: Seq<char>)
    ensures
        pdu::message_of(body).is_none() ==> manager::response_in(body) == 0x80,
        pdu::message_of(body) == Some(m) && m.response_status.is_none() ==> manager::response_in(body)
            == 0x80,
        pdu::message_of(body) == Some(m) && m.response_status == Some(s) ==> manager::response_in(body)
            == s,
        pdu::message_of(body) == Some(m) && m.response_text == Some(words)
            ==> manager::rejection_text(body) == words,
        pdu::message_of(body) == Some(m) && m.response_text.is_none() && m.response_status == Some(s)
            ==> manager::rejection_text(body) == "response status 0x"@ + seq![
            "0123456789abcdef"@[s as int / 16],
            "0123456789abcdef"@[s as int % 16],
        ],
{
    reveal_strlit("0123456789abcdef");
    reveal_with_fuel(text::hex_fixed, 3);
    assert(text::hex_fixed(s as nat, 2) =~= seq![
        "0123456789abcdef"@[s as int / 16],
        "0123456789abcdef"@[s as int % 16],
    ]);
}

/// The bearer is asked for where it is left to it where traffic leaves from, or who resolves names.
pub proof fn law_the_bearer_is_asked_for_what_is_not_set(cfg: Mms)
    ensures
        cfg.dns@.len() == 0 ==> manager::wants_bearer(cfg),
        cfg.interface.is_none() && cfg.local_ip.is_none() ==> manager::wants_bearer(cfg),
        cfg.dns@.len() > 0 && (cfg.interface.is_some() || cfg.local_ip.is_some())
            ==> !manager::wants_bearer(cfg),
{
}

} // verus!
