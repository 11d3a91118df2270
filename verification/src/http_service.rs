//! What a request over HTTP asks for, and what its answer says.
use vstd::prelude::*;

use crate::db;
use crate::http_api;
use crate::http_api::{Endpoint, Handling, Outcome, Wish};
use crate::http_head;
use crate::sip::message;
use crate::sip::wire;
use crate::text;

verus! {

// ------------------------------------------------------------------ where a request goes

/// The path that leads through some segments.
pub open spec fn path_of(segments: Seq<Seq<char>>) -> Seq<char> {
    seq!['/'] + text::join(segments, seq!['/'])
}

proof fn lemma_path(segments: Seq<Seq<char>>)
    requires
        segments.len() > 0,
        forall|i: int|
            0 <= i < segments.len() ==> (#[trigger] segments[i]).len() > 0 && !segments[i].contains(
                '/',
            ),
    ensures
        http_api::segments(path_of(segments)) == segments,
        http_api::segments(path_of(segments) + seq!['/']) == segments,
{
    let j = text::join(segments, seq!['/']);
    lemma_join_ends(segments);
    let p = path_of(segments);
    assert(p.skip(1) =~= j);
    assert(text::strip_start(p, '/') == j) by {
        reveal_with_fuel(text::strip_start, 2);
    }
    assert(text::strip_end(j, '/') == j);
    text::law_join_splits_back(segments, '/');
    let q = p + seq!['/'];
    assert(q.skip(1) =~= j + seq!['/']);
    assert(q[0] == '/');
    assert((j + seq!['/'])[0] == j[0]);
    assert(text::strip_start(q, '/') == j + seq!['/']) by {
        reveal_with_fuel(text::strip_start, 2);
    }
    assert((j + seq!['/']).drop_last() =~= j);
    assert(text::strip_end(j + seq!['/'], '/') == j) by {
        reveal_with_fuel(text::strip_end, 2);
    }
}

proof fn lemma_join_ends(segments: Seq<Seq<char>>)
    requires
        segments.len() > 0,
        forall|i: int|
            0 <= i < segments.len() ==> (#[trigger] segments[i]).len() > 0 && !segments[i].contains(
                '/',
            ),
    ensures
        text::join(segments, seq!['/']).len() > 0,
        text::join(segments, seq!['/'])[0] != '/',
        text::join(segments, seq!['/']).last() != '/',
    decreases segments.len(),
{
    let last = segments[segments.len() - 1];
    assert(last.contains(last[last.len() - 1]));
    assert(last.contains(last[0]));
    if segments.len() > 1 {
        let d = segments.drop_last();
        assert forall|i: int| 0 <= i < d.len() implies (#[trigger] d[i]).len() > 0 && !d[i].contains(
            '/',
        ) by {
            assert(d[i] == segments[i]);
        }
        lemma_join_ends(d);
    }
}

proof fn lemma_number(n: i64)
    ensures
        text::signed_number(text::dec_int(n as int)) == Some(n as int),
        text::dec_int(n as int).len() > 0,
        !text::dec_int(n as int).contains('/'),
{
    let d = text::dec(if n < 0 {
        -n
    } else {
        n as int
    } as nat);
    text::lemma_dec_reads_back(if n < 0 {
        -n
    } else {
        n as int
    } as nat);
    assert forall|i: int| 0 <= i < d.len() implies d[i] != '/' by {
        assert(text::is_digit(d[i]));
    }
    if n < 0 {
        assert((seq!['-'] + d).skip(1) =~= d);
    } else {
        text::law_decimal_round_trip(n as nat, 0x7fff_ffff_ffff_ffff);
        assert(text::is_digit(d[0]));
    }
}

/// Every message and every attachment is found under its number, with or without a slash at the end.
pub proof fn law_a_message_is_found_under_its_number(message: i64, index: i64)
    ensures
        http_api::endpoint_of("GET"@, path_of(seq!["messages"@, text::dec_int(message as int)]))
            == Endpoint::Message(message),
        http_api::endpoint_of(
            "GET"@,
            path_of(seq!["messages"@, text::dec_int(message as int)]) + seq!['/'],
        ) == Endpoint::Message(message),
        http_api::endpoint_of(
            "GET"@,
            path_of(
                seq![
                    "messages"@,
                    text::dec_int(message as int),
                    "attachments"@,
                    text::dec_int(index as int),
                ],
            ),
        ) == (Endpoint::Attachment { message, index }),
        http_api::endpoint_of(
            "POST"@,
            path_of(seq!["messages"@, text::dec_int(message as int), "retrieve"@]),
        ) == Endpoint::Retrieve(message),
{
    lemma_number(message);
    lemma_number(index);
    reveal_strlit("GET");
    reveal_strlit("POST");
    reveal_strlit("messages");
    reveal_strlit("attachments");
    reveal_strlit("retrieve");
    assert("GET"@.len() != "POST"@.len());
    assert(!"messages"@.contains('/'));
    assert(!"attachments"@.contains('/'));
    assert(!"retrieve"@.contains('/'));
    lemma_path(seq!["messages"@, text::dec_int(message as int)]);
    lemma_path(
        seq![
            "messages"@,
            text::dec_int(message as int),
            "attachments"@,
            text::dec_int(index as int),
        ],
    );
    lemma_path(seq!["messages"@, text::dec_int(message as int), "retrieve"@]);
}

/// Whoever shows the token is served, and where none is asked for everyone is.
pub proof fn law_the_token_opens_the_door(w: Wish, token: Seq<char>, h: Handling)
    requires
        text::is_trimmed(token),
        http_head::field_value(w.headers, "authorization"@) == Some("Bearer "@ + token),
        token.len() > 0,
        http_api::handled(w, Some(token), h),
    ensures
        http_api::handled(w, None, h),
{
    reveal_strlit("Bearer ");
    let v = "Bearer "@ + token;
    text::lemma_trimmed(v);
    assert(v.take(7) =~= "Bearer "@);
    assert(v.skip(7) =~= token);
    text::lemma_trimmed(token);
}

// ------------------------------------------------------------------ what its query says

/// Of the parts of a query the first with a name gives its value.
pub proof fn law_a_query_is_read(parts: Seq<Seq<char>>, i: int, name: Seq<char>, value: Seq<char>)
    requires
        0 <= i < parts.len(),
        !name.contains('='),
        parts[i] == name + seq!['='] + value,
        forall|j: int|
            0 <= j < i ==> !(#[trigger] parts[j].len() > name.len() && parts[j].take(
                name.len() as int + 1,
            ) == name + seq!['=']),
    ensures
        http_api::query_value(parts, name) == Some(http_api::percent_text(value)),
    decreases i,
{
    if i == 0 {
        text::lemma_split_once_at(name, value, '=');
    } else {
        let r = parts.skip(1);
        assert(r[i - 1] == parts[i]);
        assert forall|j: int| 0 <= j < i - 1 implies !(#[trigger] r[j].len() > name.len()
            && r[j].take(name.len() as int + 1) == name + seq!['=']) by {
            assert(r[j] == parts[j + 1]);
        }
        law_a_query_is_read(r, i - 1, name, value);
        let p = parts[0];
        text::lemma_find(p, '=');
        let k = text::find(p, '=');
        if k < p.len() && p.take(k) == name {
            assert(p.take(k + 1) =~= name + seq!['=']);
        }
    }
}

/// A list is as long as was asked for, within one and five hundred; fifty where nothing was.
pub proof fn law_a_list_is_as_long_as_asked(w: Wish, n: i64)
    ensures
        http_api::query_value(text::split(w.query, '&'), "limit"@) == Some(text::dec_int(n as int))
            ==> http_api::list_limit(w) == (if n < 1 {
            1
        } else if n > 500 {
            500
        } else {
            n as int
        }),
        http_api::query_value(text::split(w.query, '&'), "limit"@).is_none()
            ==> http_api::list_limit(w) == 50,
        http_api::query_value(text::split(w.query, '&'), "before"@) == Some(text::dec_int(n as int))
            ==> http_api::list_before(w) == Some(n as int),
        http_api::query_value(text::split(w.query, '&'), "before"@).is_none()
            ==> http_api::list_before(w).is_none(),
{
    lemma_number(n);
}

/// Bytes with every one of them written as a percent sign and two digits.
pub open spec fn escaped(b: Seq<u8>) -> Seq<u8>
    decreases b.len(),
{
    if b.len() == 0 {
        seq![]
    } else {
        seq![0x25u8, escape_digit(b[0] as int / 16), escape_digit(b[0] as int % 16)] + escaped(
            b.skip(1),
        )
    }
}

pub open spec fn escape_digit(n: int) -> u8 {
    if n < 10 {
        (0x30 + n) as u8
    } else {
        (0x41 + n - 10) as u8
    }
}

/// What is escaped stands for the bytes it was made of, whatever they are; what is not escaped stands
/// for itself.
pub proof fn law_escapes_stand_for_bytes(b: Seq<u8>, c: u8, rest: Seq<u8>)
    requires
        c != 0x25,
    ensures
        http_api::percent_bytes(escaped(b)) == b,
        http_api::percent_bytes(seq![c] + rest) == seq![c] + http_api::percent_bytes(rest),
    decreases b.len(),
{
    assert((seq![c] + rest).skip(1) =~= rest);
    if b.len() > 0 {
        let r = b.skip(1);
        law_escapes_stand_for_bytes(r, c, rest);
        let e = escaped(b);
        lemma_escape_digit(b[0] as int / 16);
        lemma_escape_digit(b[0] as int % 16);
        assert(e.skip(3) =~= escaped(r));
        assert(seq![b[0]] + r =~= b);
    } else {
        assert(b =~= seq![]);
    }
}

proof fn lemma_escape_digit(n: int)
    requires
        0 <= n < 16,
    ensures
        http_api::hex_of_byte(escape_digit(n)) == Some(n as nat),
{
}

// ------------------------------------------------------------------ what it is made of

/// The first line of a request is its method and its target, which is a path and what follows a
/// question mark.
pub proof fn law_a_request_line_is_read(
    method: Seq<char>,
    path: Seq<char>,
    query: Seq<char>,
    version: Seq<char>,
    rest: Seq<char>,
)
    requires
        method.len() > 0,
        forall|i: int| 0 <= i < method.len() ==> !text::is_space(#[trigger] method[i]),
        path.len() > 0,
        forall|i: int| 0 <= i < path.len() ==> !text::is_space(#[trigger] path[i]),
        !path.contains('?'),
        forall|i: int| 0 <= i < query.len() ==> !text::is_space(#[trigger] query[i]),
        version.len() > 0,
        forall|i: int| 0 <= i < version.len() ==> !text::is_space(#[trigger] version[i]),
    ensures
        ({
            let line = method + seq![' '] + (path + seq!['?'] + query) + seq![' '] + version;
            let w = http_api::head_of(line + "\r\n"@ + rest);
            &&& w.method == method
            &&& w.path == path
            &&& w.query == query
            &&& w.headers == http_head::fields_of(http_head::head_lines(rest))
        }),
        ({
            let line = method + seq![' '] + path + seq![' '] + version;
            let w = http_api::head_of(line + "\r\n"@ + rest);
            &&& w.method == method
            &&& w.path == path
            &&& w.query.len() == 0
            &&& w.headers == http_head::fields_of(http_head::head_lines(rest))
        }),
{
    let target = path + seq!['?'] + query;
    let line = method + seq![' '] + target + seq![' '] + version;
    lemma_line_words(method, target, version);
    lemma_first_line(line, rest);
    text::lemma_split_once_at(path, query, '?');
    let plain = method + seq![' '] + path + seq![' '] + version;
    lemma_line_words(method, path, version);
    lemma_first_line(plain, rest);
    text::lemma_split_once_none(path, '?');
}

proof fn lemma_line_words(method: Seq<char>, target: Seq<char>, version: Seq<char>)
    requires
        method.len() > 0,
        forall|i: int| 0 <= i < method.len() ==> !text::is_space(#[trigger] method[i]),
        target.len() > 0,
        forall|i: int| 0 <= i < target.len() ==> !text::is_space(#[trigger] target[i]),
        version.len() > 0,
        forall|i: int| 0 <= i < version.len() ==> !text::is_space(#[trigger] version[i]),
    ensures
        ({
            let line = method + seq![' '] + target + seq![' '] + version;
            &&& text::words(line).len() == 3
            &&& text::words(line)[0] == method
            &&& text::words(line)[1] == target
            &&& forall|i: int| 0 <= i < line.len() ==> #[trigger] line[i] == ' ' || !text::is_space(
                line[i],
            )
        }),
{
    let line = method + seq![' '] + target + seq![' '] + version;
    let two = target + seq![' '] + version;
    wire::lemma_words_front(version, seq![]);
    assert(version + Seq::<char>::empty() =~= version);
    assert(text::words(Seq::<char>::empty()) =~= seq![]);
    wire::lemma_words_behind_space(version);
    wire::lemma_words_front(target, seq![' '] + version);
    assert(target + (seq![' '] + version) =~= two);
    wire::lemma_words_behind_space(two);
    wire::lemma_words_front(method, seq![' '] + two);
    assert(method + (seq![' '] + two) =~= line);
}

proof fn lemma_first_line(line: Seq<char>, rest: Seq<char>)
    requires
        forall|i: int| 0 <= i < line.len() ==> #[trigger] line[i] == ' ' || !text::is_space(line[i]),
    ensures
        http_head::head_lines(line + "\r\n"@ + rest)[0] == line,
        http_head::head_lines(line + "\r\n"@ + rest).skip(1) == http_head::head_lines(rest),
{
    reveal_strlit("\r\n");
    let s = line + "\r\n"@ + rest;
    let n = line.len() as int;
    text::law_a_text_is_found_where_it_stands(s, "\r\n"@);
    assert(s.subrange(n, n + 2) =~= "\r\n"@);
    let k = text::find_text(s, "\r\n"@);
    assert(k >= 0);
    if k < n {
        assert(s.subrange(k, k + 2)[0] == line[k]);
        assert(text::is_space('\r'));
    }
    if k > n {
        assert(s.subrange(n, n + 2) != "\r\n"@);
    }
    assert(s.take(n) =~= line);
    assert(s.skip(n + 2) =~= rest);
    assert(http_head::head_lines(s).skip(1) =~= http_head::head_lines(rest));
}

/// The body of a request is as long as its head says, and is the bytes that follow the head.
pub proof fn law_a_body_is_read_whole(req: Wish, length: nat, more: Seq<u8>)
    requires
        req.body.len() + more.len() >= length,
    ensures
        ({
            let r = http_api::read_more(http_api::Reading::Body { req, length }, more);
            &&& r matches Ok(next) && http_api::is_complete(next) && (http_api::request_of(
                next,
            ) matches Some(w) && w.body == (req.body + more).take(length as int) && w.method
                == req.method && w.path == req.path && w.query == req.query && w.headers
                == req.headers)
        }),
{
    assert((req.body + more).take((req.body + more).len() as int) =~= req.body + more);
}

// ------------------------------------------------------------------ what its answer says

/// A media type that holds nothing but what one may hold is said as it is.
pub proof fn law_a_clean_media_type_is_kept(s: Seq<char>)
    requires
        s.len() <= 128,
        s.contains('/'),
        text::is_trimmed(s),
        forall|i: int|
            0 <= i < s.len() ==> ('a' <= #[trigger] s[i] <= 'z' || 'A' <= s[i] <= 'Z' || '0' <= s[i]
                <= '9' || s[i] == '/' || s[i] == '.' || s[i] == '+' || s[i] == '-' || s[i] == '_'
                || s[i] == ';' || s[i] == '=' || s[i] == ' '),
    ensures
        http_api::media_type(s) == s,
{
    lemma_media_chars(s, 128);
    text::lemma_trimmed(s);
}

proof fn lemma_media_chars(s: Seq<char>, limit: nat)
    requires
        s.len() <= limit,
        forall|i: int|
            0 <= i < s.len() ==> ('a' <= #[trigger] s[i] <= 'z' || 'A' <= s[i] <= 'Z' || '0' <= s[i]
                <= '9' || s[i] == '/' || s[i] == '.' || s[i] == '+' || s[i] == '-' || s[i] == '_'
                || s[i] == ';' || s[i] == '=' || s[i] == ' '),
    ensures
        http_api::media_chars(s, limit) == s,
    decreases s.len(),
{
    if s.len() > 0 {
        let r = s.skip(1);
        assert forall|i: int| 0 <= i < r.len() implies ('a' <= #[trigger] r[i] <= 'z' || 'A' <= r[i]
            <= 'Z' || '0' <= r[i] <= '9' || r[i] == '/' || r[i] == '.' || r[i] == '+' || r[i] == '-'
            || r[i] == '_' || r[i] == ';' || r[i] == '=' || r[i] == ' ') by {
            assert(r[i] == s[i + 1]);
        }
        lemma_media_chars(r, (limit - 1) as nat);
        assert(s[0] == s[0]);
        assert(seq![s[0]] + r =~= s);
    } else {
        assert(s =~= seq![]);
    }
}

// ------------------------------------------------------------------ what is kept

/// A file keeps the name it came with where that holds nothing but letters, digits, dots, lines and
/// underscores, behind its place in the message.
pub proof fn law_a_clean_file_name_is_kept(
    name: Seq<char>,
    index: int,
    content_type: Seq<char>,
)
    requires
        name.len() > 0,
        name != "."@,
        name != ".."@,
        forall|i: int|
            0 <= i < name.len() ==> ('a' <= #[trigger] name[i] <= 'z' || 'A' <= name[i] <= 'Z' || '0'
                <= name[i] <= '9' || name[i] == '.' || name[i] == '_' || name[i] == '-'),
        index >= 0,
    ensures
        db::file_name(Some(name), index, content_type) == text::dec(index as nat) + "_"@ + name,
{
    let safe = db::safe_chars(name);
    assert forall|i: int| 0 <= i < name.len() implies safe[i] == name[i] by {
        assert('a' <= name[i] <= 'z' || 'A' <= name[i] <= 'Z' || '0' <= name[i] <= '9' || name[i]
            == '.' || name[i] == '_' || name[i] == '-');
    }
    assert(safe =~= name);
}

// ------------------------------------------------------------------ what an answer says

/// An answer begins with its status, says what it carries and how long that is, and is followed by it
/// behind an empty line; what else it is to say stands in between as it was given.
pub proof fn law_an_answer_says_what_it_carries(
    status: u16,
    kind: Seq<char>,
    extra: Seq<char>,
    length: nat,
)
    ensures
        ({
            let head = http_api::response_head(status, kind, extra, length);
            &&& text::has_prefix(head, "HTTP/1.1 "@ + text::dec(status as nat) + " "@)
            &&& text::holds(head, "\r\nContent-Type: "@ + http_api::media_type(kind) + "\r\n"@)
            &&& text::holds(head, "\r\n"@ + extra + "Content-Length: "@ + text::dec(length) + "\r\n"@)
            &&& head.len() >= 4 && head.skip(head.len() - 4) == "\r\n\r\n"@
        }),
{
    let last = "\r\nConnection: close\r\n\r\n"@;
    let after = last.skip(2);
    assert(last =~= "\r\n"@ + after && last.len() >= 4 && last.skip(last.len() - 4)
        =~= "\r\n\r\n"@) by {
        reveal_strlit("\r\n\r\n");
        reveal_strlit("\r\n");
        reveal_strlit("\r\nConnection: close\r\n\r\n");
    }
    lemma_head_parts(
        "HTTP/1.1 "@ + text::dec(status as nat) + " "@,
        http_api::reason_of(status),
        "\r\nContent-Type: "@ + http_api::media_type(kind),
        "\r\n"@,
        extra,
        "Content-Length: "@,
        text::dec(length),
        after,
    );
    let head = http_api::response_head(status, kind, extra, length);
    assert(head =~= "HTTP/1.1 "@ + text::dec(status as nat) + " "@ + http_api::reason_of(status) + (
    "\r\nContent-Type: "@ + http_api::media_type(kind)) + "\r\n"@ + extra + "Content-Length: "@
        + text::dec(length) + ("\r\n"@ + after));
    assert(head.skip(head.len() - 4) =~= last.skip(last.len() - 4));
}

proof fn lemma_head_parts(
    first: Seq<char>,
    words: Seq<char>,
    of_kind: Seq<char>,
    end: Seq<char>,
    extra: Seq<char>,
    name: Seq<char>,
    digits: Seq<char>,
    after: Seq<char>,
)
    ensures
        ({
            let head = first + words + of_kind + end + extra + name + digits + (end + after);
            &&& text::has_prefix(head, first)
            &&& text::holds(head, of_kind + end)
            &&& text::holds(head, end + extra + name + digits + end)
        }),
{
    let head = first + words + of_kind + end + extra + name + digits + (end + after);
    assert(head.take(first.len() as int) =~= first);
    let rest = extra + name + digits + (end + after);
    assert(head =~= first + words + (of_kind + end) + rest);
    text::lemma_holds_itself(of_kind + end);
    text::lemma_held(first + words, of_kind + end, rest, of_kind + end);
    let inner = end + extra + name + digits + end;
    assert(head =~= first + words + of_kind + inner + after);
    text::lemma_holds_itself(inner);
    text::lemma_held(first + words + of_kind, inner, after, inner);
}

/// A status is told by the words that go with it.
pub proof fn law_a_status_has_its_words(status: u16)
    ensures
        status == 200 ==> http_api::reason_of(status) == "OK"@,
        status == 202 ==> http_api::reason_of(status) == "Accepted"@,
        status == 400 ==> http_api::reason_of(status) == "Bad Request"@,
        status == 401 ==> http_api::reason_of(status) == "Unauthorized"@,
        status == 404 ==> http_api::reason_of(status) == "Not Found"@,
        status == 500 ==> http_api::reason_of(status) == "Internal Server Error"@,
        status == 502 ==> http_api::reason_of(status) == "Bad Gateway"@,
        status == 503 ==> http_api::reason_of(status) == "Service Unavailable"@,
{
}

/// What was done is told by its status: a submission is accepted, everything else complete; a body that
/// cannot be read, a missing modem and a missing message have statuses of their own, and a retrieval
/// fails at the carrier.
pub proof fn law_what_was_done_has_its_status(h: Handling, o: Outcome)
    ensures
        o == Outcome::Done ==> http_api::outcome_status(h, o) == (if h is SendSms || h is SendMms {
            202
        } else {
            200int
        }),
        o == Outcome::BadBody ==> http_api::outcome_status(h, o) == 400,
        o == Outcome::NotFound ==> http_api::outcome_status(h, o) == 404,
        o == Outcome::NoModem ==> http_api::outcome_status(h, o) == 503,
        o == Outcome::DatabaseError || o == Outcome::Unreadable ==> http_api::outcome_status(h, o)
            == 500,
        o == Outcome::Failed ==> http_api::outcome_status(h, o) == (if h is Retrieve {
            502
        } else {
            500int
        }),
{
}

// ------------------------------------------------------------------ where a head ends

proof fn lemma_first_place(s: Seq<u8>, needle: Seq<u8>, k: int)
    requires
        needle.len() > 0,
        0 <= k,
        k + needle.len() <= s.len(),
        s.subrange(k, k + needle.len()) == needle,
        forall|j: int|
            0 <= j < k ==> #[trigger] s.subrange(j, j + needle.len()) != needle,
    ensures
        message::find_bytes(s, needle) == k,
    decreases k,
{
    let n = needle.len() as int;
    if k == 0 {
        assert(s.take(n) =~= s.subrange(0, 0 + n));
    } else {
        assert(s.take(n) =~= s.subrange(0, 0 + n));
        let r = s.skip(1);
        assert(r.subrange(k - 1, k - 1 + n) =~= s.subrange(k, k + n));
        assert forall|j: int| 0 <= j < k - 1 implies #[trigger] r.subrange(j, j + n) != needle by {
            assert(r.subrange(j, j + n) =~= s.subrange(j + 1, j + 1 + n));
        }
        lemma_first_place(r, needle, k - 1);
    }
}

proof fn lemma_no_place(s: Seq<u8>, needle: Seq<u8>)
    requires
        needle.len() > 0,
        forall|j: int|
            0 <= j && j + needle.len() <= s.len() ==> #[trigger] s.subrange(j, j + needle.len())
                != needle,
    ensures
        message::find_bytes(s, needle) == -1,
    decreases s.len(),
{
    let n = needle.len() as int;
    if s.len() >= n {
        assert(s.take(n) =~= s.subrange(0, 0 + n));
        let r = s.skip(1);
        assert forall|j: int| 0 <= j && j + n <= r.len() implies #[trigger] r.subrange(j, j + n)
            != needle by {
            assert(r.subrange(j, j + n) =~= s.subrange(j + 1, j + 1 + n));
        }
        lemma_no_place(r, needle);
    }
}

/// A request is cut at the first empty line: what stands before it is the head, and what stands behind
/// it begins the body. As long as there is none, what came is kept, and nothing of it is lost.
pub proof fn law_a_request_is_cut_at_the_empty_line(b: Seq<u8>, chunk: Seq<u8>, end: int)
    requires
        b.len() + chunk.len() <= 64 * 1024,
    ensures
        (0 <= end && end + 4 <= (b + chunk).len() && (b + chunk).subrange(end, end + 4) == seq![
            13u8,
            10u8,
            13u8,
            10u8,
        ] && (forall|j: int|
            0 <= j < end ==> #[trigger] (b + chunk).subrange(j, j + 4) != seq![
                13u8,
                10u8,
                13u8,
                10u8,
            ])) ==> ({
            let w = http_api::head_of(text::lossy((b + chunk).take(end)));
            http_api::body_length(w) <= 32 * 1024 * 1024 ==> (http_api::read_more(
                http_api::Reading::Head(b),
                chunk,
            ) matches Ok(http_api::Reading::Body { req, length }) && length == http_api::body_length(w)
                && req.body == (b + chunk).skip(end + 4) && req.method == w.method && req.path == w.path
                && req.query == w.query && req.headers == w.headers)
        }),
        (forall|j: int|
            0 <= j && j + 4 <= (b + chunk).len() ==> #[trigger] (b + chunk).subrange(j, j + 4)
                != seq![13u8, 10u8, 13u8, 10u8]) ==> http_api::read_more(
            http_api::Reading::Head(b),
            chunk,
        ) == Ok::<http_api::Reading, http_api::RequestError>(http_api::Reading::Head(b + chunk)),
{
    let all = b + chunk;
    let empty = seq![13u8, 10u8, 13u8, 10u8];
    if 0 <= end && end + 4 <= all.len() && all.subrange(end, end + 4) == empty && (forall|j: int|
        0 <= j < end ==> #[trigger] all.subrange(j, j + 4) != empty) {
        lemma_first_place(all, empty, end);
    }
    if forall|j: int|
        0 <= j && j + 4 <= all.len() ==> #[trigger] all.subrange(j, j + 4) != empty {
        lemma_no_place(all, empty);
    }
}

} // verus!
