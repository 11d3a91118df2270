//! What is told of a message: its identity, its summary, and how large its attachments are.
use vstd::prelude::*;

use crate::db::{Attachment, StoredMessage};
use crate::text;
use super::messaging;

verus! {

// ------------------------------------------------------------------ the summary

/// The summary of a message tells whom it is from, its subject and its text where it has them, and
/// its status where that is not that it was received.
pub proof fn law_a_summary_tells_what_was_said(base: Seq<char>, msg: StoredMessage)
    ensures
        text::holds(messaging::summary(base, msg), "[MMS] from "@ + msg.peer@ + "\n"@),
        msg.subject matches Some(s) ==> (s@.len() > 0 ==> text::holds(
            messaging::summary(base, msg),
            "Subject: "@ + s@ + "\n"@,
        )),
        msg.text matches Some(t) ==> (t@.len() > 0 ==> text::holds(
            messaging::summary(base, msg),
            "\n"@ + t@ + "\n"@,
        )),
        msg.status@ != "received"@ ==> text::holds(
            messaging::summary(base, msg),
            "\n(status: "@ + msg.status@ + ")\n"@,
        ),
{
    let none = Seq::<char>::empty();
    let all = messaging::summary(base, msg);
    let a = "[MMS] from "@ + msg.peer@ + "\n"@;
    let b = messaging::subject_line(text::opt_text(msg.subject));
    let c = messaging::body_lines(text::opt_text(msg.text));
    let d = messaging::attachment_part(msg.attachments@, base, msg.id as int);
    let e = messaging::status_part(msg.status@);
    assert(all =~= a + b + c + d + e);
    text::lemma_holds_itself(a);
    text::lemma_held(none, a, b + c + d + e, a);
    assert(none + a + (b + c + d + e) =~= all);
    text::lemma_holds_itself(b);
    text::lemma_held(a, b, c + d + e, b);
    assert(a + b + (c + d + e) =~= all);
    text::lemma_holds_itself(c);
    text::lemma_held(a + b, c, d + e, c);
    assert(a + b + c + (d + e) =~= all);
    text::lemma_holds_itself(e);
    text::lemma_held(a + b + c + d, e, none, e);
    assert(a + b + c + d + e + none =~= all);
}

/// Every attachment of a message is told of: its place, its name, its type, its size, and where it can
/// be had.
pub proof fn law_every_attachment_is_told_of(base: Seq<char>, msg: StoredMessage, i: int)
    requires
        0 <= i < msg.attachments@.len(),
    ensures
        ({
            let a = msg.attachments@[i];
            let name = match a.name {
                Some(n) => n@,
                None => "part"@ + text::dec_int(a.index as int),
            };
            &&& text::holds(
                messaging::summary(base, msg),
                text::dec_int(a.index as int) + ". "@ + name + " ("@ + a.content_type@ + ", "@
                    + messaging::size_text(a.size as int) + ")\n   "@ + base + "/messages/"@
                    + text::dec_int(msg.id as int) + "/attachments/"@ + text::dec_int(
                    a.index as int,
                ) + "\n"@,
            )
            &&& text::holds(
                messaging::summary(base, msg),
                "\n-- "@ + text::dec(msg.attachments@.len()) + " attachment(s) --\n"@,
            )
        }),
{
    let none = Seq::<char>::empty();
    let all = messaging::summary(base, msg);
    let v = msg.attachments@;
    let id = msg.id as int;
    let lines = messaging::attachment_lines(v[i], base, id);
    let a = "[MMS] from "@ + msg.peer@ + "\n"@ + messaging::subject_line(
        text::opt_text(msg.subject),
    ) + messaging::body_lines(text::opt_text(msg.text));
    let title = "\n-- "@ + text::dec(v.len()) + " attachment(s) --\n"@;
    let list = messaging::attachments_text(v, base, id);
    let e = messaging::status_part(msg.status@);
    assert(all =~= a + title + list + e);
    lemma_lines_are_told(v, base, id, i);
    text::lemma_held(a + title, list, e, lines);
    assert(all =~= a + title + (list + e));
    text::lemma_holds_itself(title);
    text::lemma_held(a, title, list + e, title);
}

proof fn lemma_lines_are_told(v: Seq<Attachment>, base: Seq<char>, id: int, i: int)
    requires
        0 <= i < v.len(),
    ensures
        text::holds(
            messaging::attachments_text(v, base, id),
            messaging::attachment_lines(v[i], base, id),
        ),
    decreases v.len(),
{
    let none = Seq::<char>::empty();
    let d = v.drop_last();
    let all = messaging::attachments_text(v, base, id);
    let before = messaging::attachments_text(d, base, id);
    let last = messaging::attachment_lines(v.last(), base, id);
    if i == v.len() - 1 {
        text::lemma_holds_itself(last);
        text::lemma_held(before, last, none, last);
        assert(before + last + none =~= all);
    } else {
        lemma_lines_are_told(d, base, id, i);
        text::lemma_held(none, before, last, messaging::attachment_lines(v[i], base, id));
        assert(none + before + last =~= all);
    }
}

/// A size is told in bytes below a thousand and twenty-four, and above that in the unit that fits, with
/// one decimal that is the nearest.
pub proof fn law_a_size_is_told_to_the_nearest_tenth(bytes: int, tenths: int)
    ensures
        0 <= bytes < 1024 ==> messaging::size_text(bytes) == text::dec(bytes as nat) + " B"@,
        1024 <= bytes < 0x10_0000 && tenths == messaging::rounded((10 * bytes) as nat, 1024) ==> {
            &&& messaging::size_text(bytes) == text::dec((tenths / 10) as nat) + "."@ + text::dec(
                (tenths % 10) as nat,
            ) + " "@ + "KB"@
            &&& -512 <= 1024 * tenths - 10 * bytes <= 512
        },
        0x10_0000 <= bytes < 0x4000_0000 && tenths == messaging::rounded(
            (10 * bytes) as nat,
            0x10_0000,
        ) ==> {
            &&& messaging::size_text(bytes) == text::dec((tenths / 10) as nat) + "."@ + text::dec(
                (tenths % 10) as nat,
            ) + " "@ + "MB"@
            &&& -0x8_0000 <= 0x10_0000 * tenths - 10 * bytes <= 0x8_0000
        },
{
    if 1024 <= bytes < 0x4000_0000 {
        let n = bytes as nat;
        let g = messaging::grain(n);
        let r = messaging::rounded(n, g);
        assert(g == 1);
        assert(messaging::rounded(n, 1) == n);
        assert(r * g == n) by (nonlinear_arith)
            requires
                g == 1,
                r == n,
        ;
    }
}

// ------------------------------------------------------------------ the identity

/// Two messages that came at different times have different identities, and so have two that came at
/// one time from different numbers.
pub proof fn law_different_messages_are_told_apart(
    path: Seq<char>,
    other: Seq<char>,
    t: Seq<char>,
    u: Seq<char>,
    peer: Seq<char>,
    another: Seq<char>,
    body: Seq<char>,
    data: Seq<u8>,
)
    requires
        text::is_trimmed(t) && t.len() > 0,
        text::is_trimmed(u) && u.len() > 0,
        !t.contains('|'),
        !u.contains('|'),
        !peer.contains('|'),
        !another.contains('|'),
        t != u || peer != another,
    ensures
        messaging::incoming_id(path, Some(t), peer, body, data) != messaging::incoming_id(
            other,
            Some(u),
            another,
            body,
            data,
        ),
{
    reveal_strlit("|");
    text::lemma_trimmed(t);
    text::lemma_trimmed(u);
    let a = messaging::incoming_id(path, Some(t), peer, body, data);
    let b = messaging::incoming_id(other, Some(u), another, body, data);
    let hash = crate::sip::auth::md5_text(vstd::utf8::encode_utf8(body) + data);
    let rest_a = peer + seq!['|'] + hash;
    let rest_b = another + seq!['|'] + hash;
    assert(a =~= t + seq!['|'] + rest_a);
    assert(b =~= u + seq!['|'] + rest_b);
    text::lemma_split_once_at(t, rest_a, '|');
    text::lemma_split_once_at(u, rest_b, '|');
    text::lemma_split_once_at(peer, hash, '|');
    text::lemma_split_once_at(another, hash, '|');
}

} // verus!
