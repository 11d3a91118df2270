//! The heads of HTTP messages.
use vstd::prelude::*;

use crate::sip::message;
use crate::text;

verus! {

/// The largest head that is read, in bytes.
pub const MAX_HEAD: usize = 65_536;

/// The end of a head.
pub open spec fn blank_line() -> Seq<u8> {
    seq![13u8, 10, 13, 10]
}

/// Where the head of a message ends, or -1.
pub open spec fn head_end(b: Seq<u8>) -> int {
    message::find_bytes(b, blank_line())
}

pub fn find_head_end(b: &[u8]) -> (r: Option<usize>)
    ensures
        match r {
            Some(i) => i == head_end(b@) && i + 4 <= b@.len(),
            None => head_end(b@) == -1,
        },
{
    let mut needle: Vec<u8> = Vec::new();
    needle.push(13);
    needle.push(10);
    needle.push(13);
    needle.push(10);
    assert(needle@ =~= blank_line());
    message::find_sub(b, needle.as_slice())
}

proof fn lemma_found_early(s: Seq<u8>, more: Seq<u8>, needle: Seq<u8>)
    requires
        needle.len() > 0,
        message::find_bytes(s, needle) >= 0,
    ensures
        message::find_bytes(s + more, needle) == message::find_bytes(s, needle),
        message::find_bytes(s, needle) + needle.len() <= s.len(),
    decreases s.len(),
{
    let n = needle.len() as int;
    assert((s + more).take(n) =~= s.take(n));
    if s.take(n) != needle {
        assert((s + more).skip(1) =~= s.skip(1) + more);
        lemma_found_early(s.skip(1), more, needle);
    }
}

/// The end of a head does not move when more arrives behind it.
pub proof fn lemma_head_stays(b: Seq<u8>, more: Seq<u8>)
    requires
        head_end(b) >= 0,
    ensures
        head_end(b + more) == head_end(b),
        head_end(b) + 4 <= b.len(),
        (b + more).take(head_end(b)) == b.take(head_end(b)),
        (b + more).skip(head_end(b) + 4) == b.skip(head_end(b) + 4) + more,
{
    lemma_found_early(b, more, blank_line());
    assert((b + more).take(head_end(b)) =~= b.take(head_end(b)));
    assert((b + more).skip(head_end(b) + 4) =~= b.skip(head_end(b) + 4) + more);
}

/// The lines of a head, between its line ends.
pub open spec fn head_lines(s: Seq<char>) -> Seq<Seq<char>>
    decreases s.len(),
    via head_lines_decreases
{
    let i = text::find_text(s, "\r\n"@);
    if i < 0 {
        seq![s]
    } else {
        seq![s.take(i)] + head_lines(s.skip(i + 2))
    }
}

#[via_fn]
proof fn head_lines_decreases(s: Seq<char>) {
    reveal_strlit("\r\n");
    text::lemma_find_text(s, "\r\n"@);
}

/// A field of a head: a name and a value around a colon.
pub open spec fn field_of(line: Seq<char>) -> Option<(Seq<char>, Seq<char>)> {
    match text::split_once(line, ':') {
        Some((k, v)) => Some((text::trim(k), text::trim(v))),
        None => None,
    }
}

/// The fields of a head; a line without a colon is passed over.
pub open spec fn fields_of(lines: Seq<Seq<char>>) -> Seq<(Seq<char>, Seq<char>)>
    decreases lines.len(),
{
    if lines.len() == 0 {
        seq![]
    } else {
        match field_of(lines.last()) {
            Some(f) => fields_of(lines.drop_last()).push(f),
            None => fields_of(lines.drop_last()),
        }
    }
}

/// The value of the first field of a name, in any case.
pub open spec fn field_value(f: Seq<(Seq<char>, Seq<char>)>, name: Seq<char>) -> Option<Seq<char>>
    decreases f.len(),
{
    if f.len() == 0 {
        None
    } else if text::eq_nocase(f[0].0, name) {
        Some(f[0].1)
    } else {
        field_value(f.skip(1), name)
    }
}

/// The length that a head declares, where it can be read.
pub open spec fn declared_length(f: Seq<(Seq<char>, Seq<char>)>) -> Option<nat> {
    match field_value(f, "content-length"@) {
        Some(v) => text::number(text::trim(v), usize::MAX as nat),
        None => None,
    }
}

pub fn lines_of_head(s: &[char]) -> (r: Vec<&[char]>)
    ensures
        text::slices(r@) == head_lines(s@),
        r@.len() >= 1,
{
    let mut out: Vec<&[char]> = Vec::new();
    let mut rest: &[char] = s;
    assert(text::slices(out@) + head_lines(rest@) =~= head_lines(s@));
    loop
        invariant
            text::slices(out@) + head_lines(rest@) == head_lines(s@),
        decreases rest@.len(),
    {
        proof {
            reveal_strlit("\r\n");
            text::lemma_find_text(rest@, "\r\n"@);
        }
        let ghost so_far = text::slices(out@);
        let total = rest.len();
        match text::index_of_text(rest, "\r\n") {
            Some(i) => {
                assert(i + 2 <= total);
                let line = text::take(rest, i);
                let tail = text::skip(rest, i + 2);
                out.push(line);
                assert(text::slices(out@) =~= so_far.push(line@));
                assert(text::slices(out@) + head_lines(tail@) =~= so_far + (seq![line@]
                    + head_lines(tail@)));
                rest = tail;
            },
            None => {
                out.push(rest);
                assert(text::slices(out@) =~= so_far + seq![rest@]);
                return out;
            },
        }
    }
}

/// The fields on the lines from a number on.
pub fn read_fields(lines: &Vec<&[char]>, from: usize) -> (r: Vec<(String, String)>)
    requires
        from <= lines@.len(),
    ensures
        text::pairs(r@) == fields_of(text::slices(lines@).skip(from as int)),
{
    let ghost all = text::slices(lines@).skip(from as int);
    let mut out: Vec<(String, String)> = Vec::new();
    let mut i: usize = from;
    assert(text::pairs(out@) =~= fields_of(all.take(0)));
    while i < lines.len()
        invariant
            from <= i <= lines@.len(),
            all == text::slices(lines@).skip(from as int),
            text::pairs(out@) == fields_of(all.take(i - from)),
        decreases lines@.len() - i,
    {
        assert(all.take(i + 1 - from).drop_last() =~= all.take(i - from));
        assert(all.take(i + 1 - from).last() == lines@[i as int]@);
        if let Some((k, v)) = text::cut(lines[i], ':') {
            let ghost so_far = text::pairs(out@);
            let name = text::string_of(text::trimmed(k));
            let value = text::string_of(text::trimmed(v));
            let ghost f = (name@, value@);
            out.push((name, value));
            assert(text::pairs(out@) =~= so_far.push(f));
        }
        i += 1;
    }
    assert(all.take(i - from) =~= all);
    out
}

pub fn find_field<'a>(f: &'a Vec<(String, String)>, name: &str) -> (r: Option<&'a str>)
    ensures
        text::opt_str(r) == field_value(text::pairs(f@), name@),
{
    let ghost all = text::pairs(f@);
    let mut i: usize = 0;
    assert(all.skip(0) =~= all);
    while i < f.len()
        invariant
            i <= f@.len(),
            all == text::pairs(f@),
            field_value(all.skip(i as int), name@) == field_value(all, name@),
        decreases f@.len() - i,
    {
        assert(all.skip(i as int)[0] == (f@[i as int].0@, f@[i as int].1@));
        assert(all.skip(i as int).skip(1) =~= all.skip(i + 1));
        if text::str_is_nocase(f[i].0.as_str(), name) {
            return Some(f[i].1.as_str());
        }
        i += 1;
    }
    None
}

pub fn content_length(f: &Vec<(String, String)>) -> (r: Option<usize>)
    ensures
        text::opt_nat_usize(r) == declared_length(text::pairs(f@)),
{
    match find_field(f, "content-length") {
        Some(v) => {
            let c = text::chars_of(v);
            text::parse_usize(text::trimmed(c.as_slice()))
        },
        None => None,
    }
}

} // verus!
