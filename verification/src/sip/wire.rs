//! Messages on the wire: what a peer reads of the bytes that are sent.
use vstd::prelude::*;
use vstd::utf8::*;

use crate::sip::message;
use crate::sip::message::{Answered, Asked, Fields, Method, Said};
use crate::sip::round_trip;
use crate::sip::uri;
use crate::text;

verus! {

// ------------------------------------------------------------------ what is sent

/// A header name that is read back as it was written: it is in its canonical form, nothing in it
/// ends the name or the line, and the letters that are written as capitals are ASCII.
pub open spec fn name_writable(n: Seq<char>) -> bool {
    &&& message::canonical_name(n) == n
    &&& text::lower(n) == n
    &&& text::is_trimmed(n)
    &&& forall|i: int|
        0 <= i < n.len() ==> (#[trigger] n[i]) != ':' && n[i] != '\n' && (i == 0 || n[i - 1] == '-'
            ==> (n[i] as u32) < 0x80)
}

pub open spec fn names_writable(f: Fields) -> bool {
    forall|i: int| 0 <= i < f.len() ==> name_writable((#[trigger] f[i]).0)
}

/// A field as the peer reads it: the value without control characters and without white space at
/// its ends, and the true length in place of any other.
pub open spec fn sent_field(f: (Seq<char>, Seq<char>), body_len: nat) -> (Seq<char>, Seq<char>) {
    if f.0 == "content-length"@ {
        (f.0, text::dec(body_len))
    } else {
        (f.0, text::trim(message::safe_value(f.1)))
    }
}

/// The fields as the peer reads them. The length is there in any case.
pub open spec fn sent_fields(f: Fields, body_len: nat) -> Fields {
    let sent = Seq::new(f.len(), |i: int| sent_field(f[i], body_len));
    if message::has_name(f, "content-length"@) {
        sent
    } else {
        sent.push(("content-length"@, text::dec(body_len)))
    }
}

/// A URI that can stand in a request line.
pub open spec fn target_writable(u: uri::Address) -> bool {
    &&& round_trip::uri_writable(u)
    &&& !message::has_ascii_control(uri::uri_text(u))
    &&& forall|i: int|
        0 <= i < uri::uri_text(u).len() ==> !text::is_space(#[trigger] uri::uri_text(u)[i])
}

// ------------------------------------------------------------------ bytes

pub proof fn lemma_utf8_concat(a: Seq<char>, b: Seq<char>)
    ensures
        encode_utf8(a + b) == encode_utf8(a) + encode_utf8(b),
    decreases a.len(),
{
    if a.len() == 0 {
        assert(a + b =~= b);
        assert(encode_utf8(a) =~= seq![]);
    } else {
        assert((a + b).drop_first() =~= a.drop_first() + b);
        lemma_utf8_concat(a.drop_first(), b);
        assert(encode_utf8(a + b) =~= encode_utf8(a) + encode_utf8(b));
    }
}

proof fn lemma_crlf_bytes()
    ensures
        encode_utf8(seq!['\r', '\n']) == seq![13u8, 10u8],
        encode_utf8(seq!['\r', '\n', '\r', '\n']) == seq![13u8, 10u8, 13u8, 10u8],
{
    let a = seq!['\r', '\n'];
    char_is_scalar('\r');
    char_is_scalar('\n');
    text::lemma_scalar_bytes('\r' as u32);
    text::lemma_scalar_bytes('\n' as u32);
    assert(a.drop_first() =~= seq!['\n']);
    assert(a.drop_first().drop_first() =~= seq![]);
    assert(encode_utf8(Seq::<char>::empty()) =~= seq![]);
    assert(encode_utf8(seq!['\n']) =~= seq![10u8]) by {
        assert(seq!['\n'].drop_first() =~= seq![]);
    }
    assert(encode_utf8(a) =~= seq![13u8, 10u8]);
    lemma_utf8_concat(a, a);
    assert(a + a =~= seq!['\r', '\n', '\r', '\n']);
    assert(encode_utf8(a) + encode_utf8(a) =~= seq![13u8, 10u8, 13u8, 10u8]);
}

proof fn lemma_line_feed(c: char)
    requires
        c as u32 == 10,
    ensures
        c == '\n',
{
}

/// A text without line feeds has no byte 10, and one that is not empty has bytes.
proof fn lemma_line_bytes(s: Seq<char>)
    requires
        !s.contains('\n'),
    ensures
        forall|i: int| 0 <= i < encode_utf8(s).len() ==> (#[trigger] encode_utf8(s)[i]) != 10,
        s.len() > 0 ==> encode_utf8(s).len() > 0,
{
    assert forall|i: int| 0 <= i < encode_utf8(s).len() implies (#[trigger] encode_utf8(s)[i])
        != 10 by {
        if encode_utf8(s)[i] == 10 {
            text::lemma_low_byte(s, i);
            let j = choose|j: int|
                0 <= j < s.len() && (#[trigger] s[j]) as u32 == encode_utf8(s)[i] as u32;
            lemma_line_feed(s[j]);
        }
    }
    if s.len() > 0 {
        text::lemma_first_byte(s);
    }
}

// ------------------------------------------------------------------ lines

/// Lines, each with its end.
pub open spec fn lines_text(lines: Seq<Seq<char>>) -> Seq<char>
    decreases lines.len(),
{
    if lines.len() == 0 {
        seq![]
    } else {
        lines_text(lines.drop_last()) + lines.last() + seq!['\r', '\n']
    }
}

/// A line that stays whole: it is not empty, holds no line end and does not look like a
/// continuation.
pub open spec fn whole_line(l: Seq<char>) -> bool {
    &&& l.len() > 0
    &&& !l.contains('\n')
    &&& l[0] != ' '
    &&& l[0] != '\t'
}

pub open spec fn whole_lines(lines: Seq<Seq<char>>) -> bool {
    forall|i: int| 0 <= i < lines.len() ==> whole_line(#[trigger] lines[i])
}

pub proof fn lemma_lines_front(first: Seq<char>, rest: Seq<Seq<char>>)
    ensures
        lines_text(seq![first] + rest) == first + seq!['\r', '\n'] + lines_text(rest),
    decreases rest.len(),
{
    let all = seq![first] + rest;
    if rest.len() == 0 {
        assert(all.drop_last() =~= seq![]);
        assert(lines_text(Seq::<Seq<char>>::empty()) =~= seq![]);
        assert(lines_text(rest) =~= seq![]);
        assert(lines_text(all) =~= first + seq!['\r', '\n'] + lines_text(rest));
    } else {
        lemma_lines_front(first, rest.drop_last());
        assert(all.drop_last() =~= seq![first] + rest.drop_last());
        assert(all.last() == rest.last());
        assert(lines_text(all) =~= first + seq!['\r', '\n'] + lines_text(rest));
    }
}

proof fn lemma_lines_joined(lines: Seq<Seq<char>>)
    requires
        lines.len() > 0,
    ensures
        lines_text(lines) == text::join(lines, seq!['\r', '\n']) + seq!['\r', '\n'],
    decreases lines.len(),
{
    if lines.len() == 1 {
        assert(lines.drop_last() =~= seq![]);
        assert(lines_text(Seq::<Seq<char>>::empty()) =~= seq![]);
        assert(lines_text(lines) =~= lines[0] + seq!['\r', '\n']);
    } else {
        lemma_lines_joined(lines.drop_last());
    }
}

/// The lines with the return that stands before each line feed.
spec fn returned(lines: Seq<Seq<char>>) -> Seq<Seq<char>> {
    Seq::new(
        lines.len(),
        |i: int|
            if i < lines.len() - 1 {
                lines[i].push('\r')
            } else {
                lines[i]
            },
    )
}

/// The lines each with a return behind it.
spec fn all_returned(lines: Seq<Seq<char>>) -> Seq<Seq<char>> {
    Seq::new(lines.len(), |i: int| lines[i].push('\r'))
}

proof fn lemma_join_all_returned(lines: Seq<Seq<char>>)
    requires
        lines.len() > 0,
    ensures
        text::join(all_returned(lines), seq!['\n']) == text::join(lines, seq!['\r', '\n']).push(
            '\r',
        ),
    decreases lines.len(),
{
    if lines.len() > 1 {
        lemma_join_all_returned(lines.drop_last());
        assert(all_returned(lines).drop_last() =~= all_returned(lines.drop_last()));
        assert(text::join(all_returned(lines), seq!['\n']) =~= text::join(
            lines,
            seq!['\r', '\n'],
        ).push('\r'));
    }
}

proof fn lemma_join_returned(lines: Seq<Seq<char>>)
    requires
        lines.len() > 0,
    ensures
        text::join(returned(lines), seq!['\n']) == text::join(lines, seq!['\r', '\n']),
{
    if lines.len() > 1 {
        lemma_join_all_returned(lines.drop_last());
        assert(returned(lines).drop_last() =~= all_returned(lines.drop_last()));
        assert(text::join(returned(lines), seq!['\n']) =~= text::join(lines, seq!['\r', '\n']));
    }
}

proof fn lemma_raw_lines(lines: Seq<Seq<char>>)
    requires
        lines.len() > 0,
        whole_lines(lines),
    ensures
        message::raw_lines(text::join(lines, seq!['\r', '\n'])) == lines,
{
    lemma_join_returned(lines);
    let r = returned(lines);
    assert forall|i: int| 0 <= i < r.len() implies !(#[trigger] r[i]).contains('\n') by {
        assert(whole_line(lines[i]));
        if r[i].contains('\n') {
            let j = choose|j: int| 0 <= j < r[i].len() && r[i][j] == '\n';
            assert(lines[i][j] == '\n');
            assert(lines[i].contains('\n'));
        }
    }
    text::law_join_splits_back(r, '\n');
    let raw = message::raw_lines(text::join(lines, seq!['\r', '\n']));
    assert forall|i: int| 0 <= i < raw.len() implies #[trigger] raw[i] == lines[i] by {
        if i < lines.len() - 1 {
            assert(lines[i].push('\r').drop_last() =~= lines[i]);
        }
    }
    assert(raw =~= lines);
}

proof fn lemma_unfolded(lines: Seq<Seq<char>>)
    requires
        whole_lines(lines),
    ensures
        message::unfolded(lines) == lines,
        message::non_empty(lines) == lines,
    decreases lines.len(),
{
    if lines.len() > 0 {
        let front = lines.drop_last();
        assert forall|i: int| 0 <= i < front.len() implies whole_line(#[trigger] front[i]) by {
            assert(front[i] == lines[i]);
        }
        lemma_unfolded(front);
        assert(whole_line(lines[lines.len() - 1]));
        assert(front.push(lines.last()) =~= lines);
    } else {
        assert(message::unfolded(lines) =~= lines);
        assert(message::non_empty(lines) =~= lines);
    }
}

// ------------------------------------------------------------------ where the head ends

/// Where nothing matches among the first `k` places, the search goes on behind them.
proof fn lemma_find_bytes_skip(s: Seq<u8>, needle: Seq<u8>, k: int)
    requires
        0 <= k <= s.len(),
        needle.len() > 0,
        forall|p: int|
            0 <= p < k && p + needle.len() <= s.len() ==> #[trigger] s.subrange(
                p,
                p + needle.len(),
            ) != needle,
        message::find_bytes(s.skip(k), needle) >= 0,
    ensures
        message::find_bytes(s, needle) == k + message::find_bytes(s.skip(k), needle),
    decreases k,
{
    if k == 0 {
        assert(s.skip(0) =~= s);
    } else {
        let t = s.skip(1);
        assert(t.skip(k - 1) =~= s.skip(k));
        assert forall|p: int|
            0 <= p < k - 1 && p + needle.len() <= t.len() implies #[trigger] t.subrange(
            p,
            p + needle.len(),
        ) != needle by {
            assert(t.subrange(p, p + needle.len()) =~= s.subrange(p + 1, p + 1 + needle.len()));
        }
        lemma_find_bytes_skip(t, needle, k - 1);
        if s.len() >= needle.len() {
            assert(s.subrange(0, 0int + needle.len()) =~= s.take(needle.len() as int));
        } else {
            lemma_find_bytes_short(s.skip(k), needle);
        }
    }
}

proof fn lemma_find_bytes_short(s: Seq<u8>, needle: Seq<u8>)
    requires
        s.len() < needle.len(),
    ensures
        message::find_bytes(s, needle) == -1,
{
}

/// Bytes that are no line feeds.
spec fn no_feed(b: Seq<u8>) -> bool {
    forall|i: int| 0 <= i < b.len() ==> (#[trigger] b[i]) != 10u8
}

/// A blank line behind a line is found.
proof fn lemma_blank_found(l: Seq<u8>, body: Seq<u8>)
    requires
        no_feed(l),
    ensures
        message::find_bytes(
            l + seq![13u8, 10u8] + (seq![13u8, 10u8] + body),
            seq![13u8, 10u8, 13u8, 10u8],
        ) == l.len(),
{
    let needle = seq![13u8, 10u8, 13u8, 10u8];
    let s = l + seq![13u8, 10u8] + (seq![13u8, 10u8] + body);
    let n = l.len() as int;
    assert forall|p: int|
        0 <= p < n && p + needle.len() <= s.len() implies #[trigger] s.subrange(
        p,
        p + needle.len(),
    ) != needle by {
        let w = s.subrange(p, p + needle.len());
        assert(w[1] == s[p + 1]);
        if p + 1 < n {
            assert(s[p + 1] == l[p + 1]);
        } else {
            assert(s[p + 1] == 13u8);
        }
        assert(needle[1] == 10u8);
    }
    assert(s.skip(n) =~= needle + body);
    assert((needle + body).take(4) =~= needle);
    assert(message::find_bytes(s.skip(n), needle) == 0);
    lemma_find_bytes_skip(s, needle, n);
}

/// Behind a line that another line follows, the search for a blank line goes on.
proof fn lemma_blank_later(l: Seq<u8>, tail: Seq<u8>)
    requires
        no_feed(l),
        tail.len() >= 2,
        tail[1] != 10u8,
        message::find_bytes(tail, seq![13u8, 10u8, 13u8, 10u8]) >= 0,
    ensures
        message::find_bytes(
            l + seq![13u8, 10u8] + tail,
            seq![13u8, 10u8, 13u8, 10u8],
        ) == l.len() + 2 + message::find_bytes(tail, seq![13u8, 10u8, 13u8, 10u8]),
{
    let needle = seq![13u8, 10u8, 13u8, 10u8];
    let s = l + seq![13u8, 10u8] + tail;
    let n = l.len() as int;
    assert forall|p: int|
        0 <= p < n + 2 && p + needle.len() <= s.len() implies #[trigger] s.subrange(
        p,
        p + needle.len(),
    ) != needle by {
        let w = s.subrange(p, p + needle.len());
        if p < n {
            assert(w[1] == s[p + 1]);
            if p + 1 < n {
                assert(s[p + 1] == l[p + 1]);
            } else {
                assert(s[p + 1] == 13u8);
            }
            assert(needle[1] == 10u8);
        } else if p == n {
            assert(w[3] == s[n + 3]);
            assert(s[n + 3] == tail[1]);
            assert(needle[3] == 10u8);
        } else {
            assert(w[0] == s[n + 1]);
            assert(s[n + 1] == 10u8);
            assert(needle[0] == 13u8);
        }
    }
    assert(s.skip(n + 2) =~= tail);
    lemma_find_bytes_skip(s, needle, n + 2);
}

proof fn lemma_lines_bytes(first: Seq<char>, rest: Seq<Seq<char>>)
    ensures
        encode_utf8(lines_text(seq![first] + rest)) == encode_utf8(first) + seq![13u8, 10u8]
            + encode_utf8(lines_text(rest)),
{
    lemma_crlf_bytes();
    lemma_lines_front(first, rest);
    lemma_utf8_concat(first + seq!['\r', '\n'], lines_text(rest));
    lemma_utf8_concat(first, seq!['\r', '\n']);
}

/// The head ends behind the last line, whatever the body is.
proof fn lemma_head_end(lines: Seq<Seq<char>>, body: Seq<u8>)
    requires
        lines.len() > 0,
        whole_lines(lines),
    ensures
        message::find_bytes(
            encode_utf8(lines_text(lines)) + seq![13u8, 10u8] + body,
            seq![13u8, 10u8, 13u8, 10u8],
        ) == encode_utf8(lines_text(lines)).len() - 2,
    decreases lines.len(),
{
    let first = lines[0];
    let rest = lines.skip(1);
    let s = encode_utf8(lines_text(lines)) + seq![13u8, 10u8] + body;
    let l = encode_utf8(first);
    assert(whole_line(lines[0]));
    lemma_line_bytes(first);
    assert(lines =~= seq![first] + rest);
    lemma_lines_bytes(first, rest);
    let tail = encode_utf8(lines_text(rest)) + seq![13u8, 10u8] + body;
    assert(s =~= l + seq![13u8, 10u8] + tail);
    if rest.len() == 0 {
        assert(encode_utf8(lines_text(rest)) =~= seq![]);
        assert(tail =~= seq![13u8, 10u8] + body);
        lemma_blank_found(l, body);
    } else {
        assert(whole_lines(rest)) by {
            assert forall|i: int| 0 <= i < rest.len() implies whole_line(#[trigger] rest[i]) by {
                assert(rest[i] == lines[i + 1]);
            }
        }
        lemma_head_end(rest, body);
        let second = rest[0];
        let l2 = encode_utf8(second);
        assert(whole_line(rest[0]));
        lemma_line_bytes(second);
        assert(rest =~= seq![second] + rest.skip(1));
        lemma_lines_bytes(second, rest.skip(1));
        assert(tail.len() >= 2);
        assert(tail[1] != 10u8) by {
            if l2.len() == 1 {
                assert(tail[1] == 13u8);
            } else {
                assert(tail[1] == l2[1]);
            }
        }
        lemma_blank_later(l, tail);
    }
}


// ------------------------------------------------------------------ header lines

proof fn lemma_capital(c: char)
    ensures
        text::lower_char(c) == c ==> text::lower_char(text::upper_char(c)) == c,
        !text::is_space(c) ==> !text::is_space(text::upper_char(c)),
        c != ':' ==> text::upper_char(c) != ':',
        c != '\n' ==> text::upper_char(c) != '\n',
        !text::is_space(c) ==> c != ' ' && c != '\t',
{
}

proof fn lemma_title_case(n: Seq<char>)
    requires
        forall|i: int|
            0 <= i < n.len() && (i == 0 || n[i - 1] == '-') ==> ((#[trigger] n[i]) as u32) < 0x80,
    ensures
        message::title_case(n).len() == n.len(),
        forall|i: int|
            0 <= i < n.len() ==> #[trigger] message::title_case(n)[i] == n[i]
                || message::title_case(n)[i] == text::upper_char(n[i]),
    decreases n.len(),
{
    if n.len() > 0 {
        let front = n.drop_last();
        assert forall|i: int|
            0 <= i < front.len() && (i == 0 || front[i - 1] == '-') implies ((
        #[trigger] front[i]) as u32) < 0x80 by {
            assert(front[i] == n[i]);
        }
        lemma_title_case(front);
        let last = n[n.len() - 1];
        assert(n.len() == 1 || n[n.len() - 2] == '-' ==> (last as u32) < 0x80);
        assert forall|i: int| 0 <= i < n.len() implies #[trigger] message::title_case(n)[i] == n[i]
            || message::title_case(n)[i] == text::upper_char(n[i]) by {
            if i < front.len() {
                assert(message::title_case(n)[i] == message::title_case(front)[i]);
                assert(front[i] == n[i]);
            }
        }
    }
}

/// A written name: nothing in it ends it, and it is read as the name it was written for.
proof fn lemma_name_read(n: Seq<char>)
    requires
        name_writable(n),
    ensures
        message::canonical_name(message::pretty_name(n)) == n,
        !message::pretty_name(n).contains(':'),
        !message::pretty_name(n).contains('\n'),
        text::is_trimmed(message::pretty_name(n)),
{
    let t = message::pretty_name(n);
    reveal_strlit("call-id");
    reveal_strlit("Call-ID");
    reveal_strlit("cseq");
    reveal_strlit("CSeq");
    reveal_strlit("www-authenticate");
    reveal_strlit("WWW-Authenticate");
    reveal_strlit("mime-version");
    reveal_strlit("MIME-Version");
    if n != "call-id"@ && n != "cseq"@ && n != "www-authenticate"@ && n != "mime-version"@ {
        lemma_title_case(n);
        assert forall|i: int| 0 <= i < t.len() implies text::lower_char(#[trigger] t[i]) == n[i]
            && t[i] != ':' && t[i] != '\n' && (!text::is_space(n[i]) ==> !text::is_space(t[i])) by {
            lemma_capital(n[i]);
            assert(text::lower(n)[i] == n[i]);
        }
        assert(text::lower(t) =~= n);
    } else {
        assert(text::lower(t) =~= n);
    }
    text::lemma_trimmed(t);
    text::lemma_trimmed(n);
}

/// A header line without its end.
pub open spec fn field_part(f: (Seq<char>, Seq<char>), body_len: nat) -> Seq<char> {
    if f.0 == "content-length"@ {
        "Content-Length: "@ + text::dec(body_len)
    } else {
        message::pretty_name(f.0) + ": "@ + message::safe_value(f.1)
    }
}

pub open spec fn field_parts(f: Fields, body_len: nat) -> Seq<Seq<char>> {
    Seq::new(f.len(), |i: int| field_part(f[i], body_len))
}

proof fn lemma_field_lines(f: Fields, body_len: nat)
    ensures
        message::field_lines(f, body_len) == lines_text(field_parts(f, body_len)),
    decreases f.len(),
{
    reveal_strlit("\r\n");
    assert("\r\n"@ =~= seq!['\r', '\n']);
    if f.len() > 0 {
        lemma_field_lines(f.drop_last(), body_len);
        assert(field_parts(f, body_len).drop_last() =~= field_parts(f.drop_last(), body_len));
        assert(message::field_lines(f, body_len) =~= lines_text(field_parts(f, body_len)));
    } else {
        assert(message::field_lines(f, body_len) =~= lines_text(field_parts(f, body_len)));
    }
}

proof fn lemma_trim_behind_space(v: Seq<char>)
    ensures
        text::trim(seq![' '] + v) == text::trim(v),
{
    assert((seq![' '] + v).skip(1) =~= v);
}

/// What a line `name: value` is read as.
proof fn lemma_line_read(name: Seq<char>, value: Seq<char>)
    requires
        !name.contains(':'),
        !name.contains('\n'),
        text::is_trimmed(name),
        !value.contains('\n'),
    ensures
        whole_line(name + seq![':', ' '] + value),
        text::split_once(name + seq![':', ' '] + value, ':') == Some((name, seq![' '] + value)),
        text::trim(seq![' '] + value) == text::trim(value),
{
    let l = name + seq![':', ' '] + value;
    assert(l =~= name + seq![':'] + (seq![' '] + value));
    text::lemma_split_once_at(name, seq![' '] + value, ':');
    lemma_trim_behind_space(value);
    text::lemma_contains_concat(name, seq![':', ' '], '\n');
    text::lemma_contains_concat(name + seq![':', ' '], value, '\n');
    assert(!seq![':', ' '].contains('\n'));
    if name.len() > 0 {
        assert(l[0] == name[0]);
        lemma_capital(name[0]);
    } else {
        assert(l[0] == ':');
    }
}

proof fn lemma_length_line(body_len: nat)
    ensures
        whole_line("Content-Length: "@ + text::dec(body_len)),
        message::fields_of(seq!["Content-Length: "@ + text::dec(body_len)]) == seq![
            ("content-length"@, text::dec(body_len)),
        ],
        text::split_once("Content-Length: "@ + text::dec(body_len), ':') == Some(
            ("Content-Length"@, seq![' '] + text::dec(body_len)),
        ),
        message::canonical_name("Content-Length"@) == "content-length"@,
        text::trim(seq![' '] + text::dec(body_len)) == text::dec(body_len),
{
    reveal_strlit("Content-Length: ");
    reveal_strlit("Content-Length");
    reveal_strlit("content-length");
    let name = "Content-Length"@;
    let d = text::dec(body_len);
    assert("Content-Length: "@ =~= name + seq![':', ' ']);
    text::lemma_dec_reads_back(body_len);
    assert forall|i: int| 0 <= i < d.len() implies d[i] != '\n' && !text::is_space(d[i]) by {
        assert(text::is_digit(d[i]));
    }
    lemma_line_read(name, d);
    text::lemma_trimmed(d);
    assert(text::lower(name) =~= "content-length"@);
    assert(text::lower("content-length"@) =~= "content-length"@);
    text::lemma_trimmed(name);
    text::lemma_trimmed("content-length"@);
    message::lemma_plain_name("content-length"@);
    let lines = seq!["Content-Length: "@ + d];
    assert(lines.drop_last() =~= seq![]);
    assert(message::fields_of(Seq::<Seq<char>>::empty()) =~= seq![]);
    assert(message::fields_of(lines) =~= seq![("content-length"@, d)]);
}

proof fn lemma_field_read(f: (Seq<char>, Seq<char>), body_len: nat)
    requires
        name_writable(f.0),
    ensures
        whole_line(field_part(f, body_len)),
        text::split_once(field_part(f, body_len), ':') matches Some((k, v)) && (
        message::canonical_name(k), text::trim(v)) == sent_field(f, body_len),
{
    if f.0 == "content-length"@ {
        lemma_length_line(body_len);
    } else {
        reveal_strlit(": ");
        assert(": "@ =~= seq![':', ' ']);
        lemma_name_read(f.0);
        message::law_a_value_cannot_end_its_line(f.1);
        lemma_line_read(message::pretty_name(f.0), message::safe_value(f.1));
    }
}

proof fn lemma_fields_read(f: Fields, body_len: nat)
    requires
        names_writable(f),
    ensures
        whole_lines(field_parts(f, body_len)),
        message::fields_of(field_parts(f, body_len)) == Seq::new(
            f.len(),
            |i: int| sent_field(f[i], body_len),
        ),
    decreases f.len(),
{
    let parts = field_parts(f, body_len);
    let sent = Seq::new(f.len(), |i: int| sent_field(f[i], body_len));
    assert forall|i: int| 0 <= i < parts.len() implies whole_line(#[trigger] parts[i]) by {
        assert(name_writable(f[i].0));
        lemma_field_read(f[i], body_len);
    }
    if f.len() > 0 {
        let front = f.drop_last();
        assert(names_writable(front)) by {
            assert forall|i: int| 0 <= i < front.len() implies name_writable(
                (#[trigger] front[i]).0,
            ) by {
                assert(front[i] == f[i]);
            }
        }
        lemma_fields_read(front, body_len);
        assert(name_writable(f[f.len() - 1].0));
        lemma_field_read(f.last(), body_len);
        assert(parts.drop_last() =~= field_parts(front, body_len));
        assert(sent =~= Seq::new(front.len(), |i: int| sent_field(front[i], body_len)).push(
            sent_field(f.last(), body_len),
        ));
    } else {
        assert(message::fields_of(parts) =~= sent);
    }
}


// ------------------------------------------------------------------ whole messages

/// The lines of the head of a message, without their ends.
pub open spec fn lines_sent(start: Seq<char>, f: Fields, body_len: nat) -> Seq<Seq<char>> {
    let parts = seq![message::safe_value(start)] + field_parts(f, body_len);
    if message::has_name(f, "content-length"@) {
        parts
    } else {
        parts.push("Content-Length: "@ + text::dec(body_len))
    }
}

proof fn lemma_head_lines(start: Seq<char>, f: Fields, body_len: nat)
    ensures
        message::head_text(start, f, body_len) == lines_text(lines_sent(start, f, body_len))
            + seq!['\r', '\n'],
{
    reveal_strlit("\r\n");
    assert("\r\n"@ =~= seq!['\r', '\n']);
    let s = message::safe_value(start);
    let parts = field_parts(f, body_len);
    lemma_field_lines(f, body_len);
    lemma_lines_front(s, parts);
    if message::has_name(f, "content-length"@) {
        assert(message::head_text(start, f, body_len) =~= lines_text(
            lines_sent(start, f, body_len),
        ) + seq!['\r', '\n']);
    } else {
        let c = "Content-Length: "@ + text::dec(body_len);
        let all = (seq![s] + parts).push(c);
        assert(all.drop_last() =~= seq![s] + parts);
        assert(lines_text(all) =~= lines_text(seq![s] + parts) + c + seq!['\r', '\n']);
        assert(message::head_text(start, f, body_len) =~= lines_text(all) + seq!['\r', '\n']);
    }
}

proof fn lemma_lookup_only(v: Fields, k: Seq<char>, x: Seq<char>)
    requires
        message::has_name(v, k),
        forall|i: int| 0 <= i < v.len() && (#[trigger] v[i]).0 == k ==> v[i].1 == x,
    ensures
        text::lookup(v, k) == Some(x),
    decreases v.len(),
{
    if v[0].0 != k {
        let rest = v.skip(1);
        let i = choose|i: int| 0 <= i < v.len() && (#[trigger] v[i]).0 == k;
        assert(rest[i - 1].0 == k);
        assert forall|j: int| 0 <= j < rest.len() && (#[trigger] rest[j]).0 == k implies rest[j].1
            == x by {
            assert(rest[j] == v[j + 1]);
        }
        lemma_lookup_only(rest, k, x);
    }
}

/// The length a peer finds is the true one.
proof fn lemma_length_sent(f: Fields, body_len: nat)
    ensures
        message::field(sent_fields(f, body_len), "content-length"@) == Some(text::dec(body_len)),
{
    let n = "content-length"@;
    let sent = sent_fields(f, body_len);
    reveal_strlit("content-length");
    assert(text::lower(n) =~= n);
    message::lemma_plain_name(n);
    assert(message::has_name(sent, n)) by {
        if message::has_name(f, n) {
            let i = choose|i: int| 0 <= i < f.len() && (#[trigger] f[i]).0 == n;
            assert(sent[i].0 == n);
        } else {
            assert(sent[f.len() as int].0 == n);
        }
    }
    assert forall|i: int| 0 <= i < sent.len() && (#[trigger] sent[i]).0 == n implies sent[i].1
        == text::dec(body_len) by {
        if i < f.len() {
            assert(sent[i] == sent_field(f[i], body_len));
        }
    }
    lemma_lookup_only(sent, n, text::dec(body_len));
}

proof fn lemma_fields_of_push(lines: Seq<Seq<char>>, l: Seq<char>)
    ensures
        message::fields_of(lines.push(l)) == match text::split_once(l, ':') {
            Some((k, v)) => message::fields_of(lines).push(
                (message::canonical_name(k), text::trim(v)),
            ),
            None => message::fields_of(lines),
        },
{
    assert(lines.push(l).drop_last() =~= lines);
}

proof fn lemma_lines_read(start: Seq<char>, f: Fields, body_len: nat)
    requires
        names_writable(f),
        whole_line(message::safe_value(start)),
    ensures
        whole_lines(lines_sent(start, f, body_len)),
        lines_sent(start, f, body_len).len() > 0,
        lines_sent(start, f, body_len)[0] == message::safe_value(start),
        message::fields_of(lines_sent(start, f, body_len).skip(1)) == sent_fields(f, body_len),
{
    let all = lines_sent(start, f, body_len);
    let parts = field_parts(f, body_len);
    lemma_fields_read(f, body_len);
    lemma_length_line(body_len);
    assert forall|i: int| 0 <= i < all.len() implies whole_line(#[trigger] all[i]) by {
        if 0 < i <= parts.len() {
            assert(all[i] == parts[i - 1]);
        }
    }
    if message::has_name(f, "content-length"@) {
        assert(all.skip(1) =~= parts);
    } else {
        let c = "Content-Length: "@ + text::dec(body_len);
        assert(all.skip(1) =~= parts.push(c));
        lemma_fields_of_push(parts, c);
    }
}

/// The parts a peer takes the bytes of a message apart into.
proof fn lemma_message_read(start: Seq<char>, f: Fields, body: Seq<u8>)
    requires
        names_writable(f),
        whole_line(message::safe_value(start)),
        body.len() <= usize::MAX,
    ensures
        ({
            let buf = message::message_bytes(start, f, body);
            let (end, at) = message::body_start(buf);
            let head = buf.take(end);
            let lines = message::head_lines(decode_utf8(head));
            &&& valid_utf8(head)
            &&& lines.len() > 0
            &&& lines[0] == message::safe_value(start)
            &&& message::fields_of(lines.skip(1)) == sent_fields(f, body.len())
            &&& message::declared_body(sent_fields(f, body.len()), buf.skip(at)) == body
        }),
{
    let lines = lines_sent(start, f, body.len());
    let buf = message::message_bytes(start, f, body);
    let crlf = seq!['\r', '\n'];
    lemma_head_lines(start, f, body.len());
    lemma_lines_read(start, f, body.len());
    lemma_crlf_bytes();
    lemma_utf8_concat(lines_text(lines), crlf);
    let bytes = encode_utf8(lines_text(lines));
    assert(buf =~= bytes + seq![13u8, 10u8] + body);
    lemma_head_end(lines, body);
    // The head is the lines, joined.
    let joined = text::join(lines, crlf);
    lemma_lines_joined(lines);
    lemma_utf8_concat(joined, crlf);
    let end = bytes.len() - 2;
    assert(bytes =~= encode_utf8(joined) + seq![13u8, 10u8]);
    assert(message::body_start(buf) == (end as int, end + 4));
    assert(buf.take(end as int) =~= encode_utf8(joined));
    encode_utf8_valid_utf8(joined);
    encode_utf8_decode_utf8(joined);
    lemma_raw_lines(lines);
    lemma_unfolded(lines);
    // The body has the length that is declared.
    assert(buf.skip(end + 4) =~= body);
    lemma_length_sent(f, body.len());
    let d = text::dec(body.len());
    text::lemma_dec_reads_back(body.len());
    assert(text::is_digit(d[0]) && text::is_digit(d[d.len() - 1]));
    text::lemma_trimmed(d);
    text::law_decimal_round_trip(body.len(), usize::MAX as nat);
    assert(body.take(body.len() as int) =~= body);
}

pub proof fn lemma_words_front(w: Seq<char>, rest: Seq<char>)
    requires
        w.len() > 0,
        forall|i: int| 0 <= i < w.len() ==> !text::is_space(#[trigger] w[i]),
        rest.len() > 0 ==> text::is_space(rest[0]),
    ensures
        text::words(w + rest) == seq![w] + text::words(rest),
{
    let s = w + rest;
    assert(s[0] == w[0]);
    assert(text::trim_start(s) == s);
    round_trip::lemma_find_space_at(w, rest);
    assert(s.take(w.len() as int) =~= w);
    assert(s.skip(w.len() as int) =~= rest);
}

pub proof fn lemma_words_behind_space(rest: Seq<char>)
    ensures
        text::words(seq![' '] + rest) == text::words(rest),
{
    assert((seq![' '] + rest).skip(1) =~= rest);
    assert(text::trim_start(seq![' '] + rest) == text::trim_start(rest));
}

proof fn lemma_method_plain(m: Method)
    ensures
        message::method_text(m).len() > 0,
        forall|i: int|
            0 <= i < message::method_text(m).len() ==> !text::is_space(
                #[trigger] message::method_text(m)[i],
            ) && message::method_text(m)[i] >= ' ' && message::method_text(m)[i] != '\x7f',
        message::method_text(m).len() > 1,
        message::method_text(m)[0] == 'S' ==> message::method_text(m)[1] != 'I',
{
    reveal_strlit("INVITE");
    reveal_strlit("ACK");
    reveal_strlit("BYE");
    reveal_strlit("CANCEL");
    reveal_strlit("REGISTER");
    reveal_strlit("OPTIONS");
    reveal_strlit("INFO");
    reveal_strlit("MESSAGE");
    reveal_strlit("NOTIFY");
    reveal_strlit("SUBSCRIBE");
    reveal_strlit("UPDATE");
    reveal_strlit("PRACK");
    reveal_strlit("REFER");
}

proof fn lemma_no_control_concat(a: Seq<char>, b: Seq<char>)
    requires
        !message::has_ascii_control(a),
        !message::has_ascii_control(b),
    ensures
        !message::has_ascii_control(a + b),
{
    assert forall|i: int| 0 <= i < (a + b).len() implies !((#[trigger] (a + b)[i]) < ' ' || (a
        + b)[i] == '\x7f') by {
        if i < a.len() {
            assert((a + b)[i] == a[i]);
        } else {
            assert((a + b)[i] == b[i - a.len()]);
        }
    }
}

proof fn lemma_printable_is_no_end(c: char)
    requires
        c >= ' ',
    ensures
        c != '\n',
        c != '\t',
{
}

proof fn lemma_request_line_read(m: Method, u: uri::Address)
    requires
        target_writable(u),
    ensures
        message::safe_value(message::request_line(m, u)) == message::request_line(m, u),
        whole_line(message::request_line(m, u)),
        message::request_line_of(message::request_line(m, u)) == Some((m, u)),
        !text::has_prefix(message::request_line(m, u), "SIP/"@),
{
    let line = message::request_line(m, u);
    let a = message::method_text(m);
    let t = uri::uri_text(u);
    reveal_strlit(" ");
    reveal_strlit(" SIP/2.0");
    reveal_strlit("SIP/");
    reveal_strlit("SIP/2.0");
    reveal_strlit(":");
    lemma_method_plain(m);
    let v = "SIP/2.0"@;
    assert(" SIP/2.0"@ =~= seq![' '] + v);
    assert(" "@ =~= seq![' ']);
    assert(line =~= a + (seq![' '] + (t + (seq![' '] + v))));
    assert(t.len() > 0);
    lemma_words_front(a, seq![' '] + (t + (seq![' '] + v)));
    lemma_words_behind_space(t + (seq![' '] + v));
    lemma_words_front(t, seq![' '] + v);
    let w = text::words(line);
    assert(w[0] == a);
    assert(w[1] == t);
    message::law_method_round_trip(m);
    round_trip::law_a_uri_reads_back(u);
    assert(!message::has_ascii_control(a));
    assert(!message::has_ascii_control(" "@));
    assert(!message::has_ascii_control(" SIP/2.0"@));
    lemma_no_control_concat(a, " "@);
    lemma_no_control_concat(a + " "@, t);
    lemma_no_control_concat(a + " "@ + t, " SIP/2.0"@);
    assert(line[0] == a[0]);
    assert(line[1] == a[1]);
    if line.contains('\n') {
        let i = choose|i: int| 0 <= i < line.len() && line[i] == '\n';
        assert(line[i] >= ' ');
        lemma_printable_is_no_end(line[i]);
    }
    lemma_capital(a[0]);
    if text::has_prefix(line, "SIP/"@) {
        assert(line.take(4)[0] == "SIP/"@[0]);
        assert(line.take(4)[1] == "SIP/"@[1]);
    }
}

/// A request is read as it was sent: its method, its URI and its body as they are, and its fields
/// as they go out, with the length of the body among them.
pub proof fn law_a_request_reads_back(r: Asked)
    requires
        target_writable(r.uri),
        names_writable(r.headers),
        r.body.len() <= usize::MAX,
    ensures
        message::message_of(message::request_bytes(r)) == Some(
            Said::Request(Asked { headers: sent_fields(r.headers, r.body.len()), ..r }),
        ),
{
    lemma_request_line_read(r.method, r.uri);
    lemma_message_read(message::request_line(r.method, r.uri), r.headers, r.body);
}

proof fn lemma_without_controls_concat(a: Seq<char>, b: Seq<char>)
    requires
        forall|i: int| 0 <= i < a.len() ==> !text::is_control(#[trigger] a[i]),
    ensures
        message::without_controls(a + b) == a + message::without_controls(b),
    decreases a.len() + b.len(),
{
    if b.len() > 0 {
        assert((a + b).drop_last() =~= a + b.drop_last());
        lemma_without_controls_concat(a, b.drop_last());
        assert(message::without_controls(a + b) =~= a + message::without_controls(b));
    } else if a.len() > 0 {
        assert(a + b =~= a);
        assert(a.drop_last() + b =~= a.drop_last());
        assert forall|i: int| 0 <= i < a.drop_last().len() implies !text::is_control(
            #[trigger] a.drop_last()[i],
        ) by {
            assert(a.drop_last()[i] == a[i]);
        }
        lemma_without_controls_concat(a.drop_last(), b);
        assert(message::without_controls(b) =~= seq![]);
        assert(!text::is_control(a[a.len() - 1]));
        assert(message::without_controls(a) =~= a.drop_last().push(a.last()));
        assert(a.drop_last().push(a.last()) =~= a);
    } else {
        assert(message::without_controls(a + b) =~= a + message::without_controls(b));
    }
}

/// A text in front that holds no control characters stays as it is.
proof fn lemma_safe_behind(a: Seq<char>, b: Seq<char>)
    requires
        forall|i: int|
            0 <= i < a.len() ==> !text::is_control(#[trigger] a[i]) && a[i] >= ' ' && a[i]
                != '\x7f',
    ensures
        message::safe_value(a + b) == a + message::safe_value(b),
{
    if message::has_ascii_control(b) {
        let i = choose|i: int| 0 <= i < b.len() && ((#[trigger] b[i]) < ' ' || b[i] == '\x7f');
        assert((a + b)[a.len() + i] == b[i]);
        assert(message::has_ascii_control(a + b));
        lemma_without_controls_concat(a, b);
    } else {
        assert(!message::has_ascii_control(a));
        lemma_no_control_concat(a, b);
    }
}

proof fn lemma_status_line_read(code: u16, reason: Seq<char>)
    ensures
        ({
            let line = message::safe_value(message::status_line(code, reason));
            &&& whole_line(line)
            &&& text::has_prefix(line, "SIP/"@)
            &&& message::status_of(line) == Some((code, message::safe_value(reason)))
        }),
{
    reveal_strlit("SIP/2.0 ");
    reveal_strlit("SIP/");
    reveal_strlit(" ");
    assert(" "@ =~= seq![' ']);
    let d = text::dec(code as nat);
    let a = "SIP/2.0 "@ + d + " "@;
    let safe = message::safe_value(reason);
    text::lemma_dec_reads_back(code as nat);
    assert forall|i: int| 0 <= i < a.len() implies !text::is_control(#[trigger] a[i]) && a[i] >= ' '
        && a[i] != '\x7f' by {
        if 8 <= i < 8 + d.len() {
            assert(a[i] == d[i - 8]);
            assert(text::is_digit(d[i - 8]));
        }
    }
    assert(message::status_line(code, reason) =~= a + reason);
    lemma_safe_behind(a, reason);
    let line = a + safe;
    message::law_a_value_cannot_end_its_line(message::status_line(code, reason));
    assert(line[0] == 'S');
    assert(line.take(4) =~= "SIP/"@);
    let head = seq!['S', 'I', 'P', '/', '2', '.', '0'];
    let rest = d + seq![' '] + safe;
    assert(line =~= head + seq![' '] + rest);
    text::lemma_split_once_at(head, rest, ' ');
    assert(!d.contains(' ')) by {
        if d.contains(' ') {
            let i = choose|i: int| 0 <= i < d.len() && d[i] == ' ';
            assert(text::is_digit(d[i]));
        }
    }
    text::lemma_split_once_at(d, safe, ' ');
    text::law_decimal_round_trip(code as nat, 65535);
}

/// A response is read as it was sent: its code and its body as they are, its reason without control
/// characters, and its fields as they go out, with the length of the body among them.
pub proof fn law_a_response_reads_back(r: Answered)
    requires
        names_writable(r.headers),
        r.body.len() <= usize::MAX,
    ensures
        message::message_of(message::response_bytes(r)) == Some(
            Said::Response(
                Answered {
                    reason: message::safe_value(r.reason),
                    headers: sent_fields(r.headers, r.body.len()),
                    ..r
                },
            ),
        ),
{
    lemma_status_line_read(r.code, r.reason);
    lemma_message_read(message::status_line(r.code, r.reason), r.headers, r.body);
}

} // verus!
