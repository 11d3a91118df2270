//! Text as sequences of characters.
//!
//! Parsers work on borrowed slices of characters; every operation is exact over the mathematical
//! sequence it views, so a parser's contract is a composition of the functions below.
use vstd::prelude::*;
use vstd::utf8::*;

verus! {

/// `String::push` appends one character.
pub assume_specification[ String::push ](s: &mut String, c: char)
    ensures
        final(s)@ == old(s)@.push(c),
;

// ------------------------------------------------------------------ characters

/// The White_Space property of Unicode.
pub open spec fn is_space(c: char) -> bool {
    let n = c as u32;
    ||| 9 <= n <= 13
    ||| n == 0x20
    ||| n == 0x85
    ||| n == 0xa0
    ||| n == 0x1680
    ||| 0x2000 <= n <= 0x200a
    ||| n == 0x2028
    ||| n == 0x2029
    ||| n == 0x202f
    ||| n == 0x205f
    ||| n == 0x3000
}

pub fn space(c: char) -> (r: bool)
    ensures
        r == is_space(c),
{
    let n: u32 = c as u32;
    (9 <= n && n <= 13) || n == 0x20 || n == 0x85 || n == 0xa0 || n == 0x1680 || (0x2000 <= n && n
        <= 0x200a) || n == 0x2028 || n == 0x2029 || n == 0x202f || n == 0x205f || n == 0x3000
}

/// The control characters of Unicode: C0, DEL and C1.
pub open spec fn is_control(c: char) -> bool {
    c <= '\x1f' || '\x7f' <= c <= '\u{9f}'
}

pub fn control(c: char) -> (r: bool)
    ensures
        r == is_control(c),
{
    c <= '\x1f' || ('\x7f' <= c && c <= '\u{9f}')
}

pub open spec fn is_digit(c: char) -> bool {
    '0' <= c <= '9'
}

pub fn digit(c: char) -> (r: bool)
    ensures
        r == is_digit(c),
{
    '0' <= c && c <= '9'
}

pub open spec fn is_alpha(c: char) -> bool {
    'a' <= c <= 'z' || 'A' <= c <= 'Z'
}

pub fn alpha(c: char) -> (r: bool)
    ensures
        r == is_alpha(c),
{
    ('a' <= c && c <= 'z') || ('A' <= c && c <= 'Z')
}

pub open spec fn is_alnum(c: char) -> bool {
    is_alpha(c) || is_digit(c)
}

pub fn alnum(c: char) -> (r: bool)
    ensures
        r == is_alnum(c),
{
    alpha(c) || digit(c)
}

/// The number a hexadecimal digit stands for.
pub open spec fn hex_digit_value(c: char) -> Option<nat> {
    if '0' <= c <= '9' {
        Some((c as int - '0' as int) as nat)
    } else if 'a' <= c <= 'f' {
        Some((c as int - 'a' as int + 10) as nat)
    } else if 'A' <= c <= 'F' {
        Some((c as int - 'A' as int + 10) as nat)
    } else {
        None
    }
}

pub fn hex_digit(c: char) -> (r: Option<u32>)
    ensures
        r.is_some() == hex_digit_value(c).is_some(),
        r.is_some() ==> r.unwrap() == hex_digit_value(c).unwrap() && r.unwrap() < 16,
{
    if '0' <= c && c <= '9' {
        Some(c as u32 - '0' as u32)
    } else if 'a' <= c && c <= 'f' {
        Some(c as u32 - 'a' as u32 + 10)
    } else if 'A' <= c && c <= 'F' {
        Some(c as u32 - 'A' as u32 + 10)
    } else {
        None
    }
}

/// The lower-case form of an ASCII letter; any other character is itself.
pub open spec fn lower_char(c: char) -> char {
    if 'A' <= c <= 'Z' {
        (c as u32 + 32) as char
    } else {
        c
    }
}

pub fn lowercase_char(c: char) -> (r: char)
    ensures
        r == lower_char(c),
{
    if 'A' <= c && c <= 'Z' {
        let n: u8 = c as u8;
        (n + 32) as char
    } else {
        c
    }
}

pub open spec fn upper_char(c: char) -> char {
    if 'a' <= c <= 'z' {
        (c as u32 - 32) as char
    } else {
        c
    }
}

pub fn uppercase_char(c: char) -> (r: char)
    ensures
        r == upper_char(c),
{
    if 'a' <= c && c <= 'z' {
        let n: u8 = c as u8;
        (n - 32) as char
    } else {
        c
    }
}

// ------------------------------------------------------------------ conversions

pub fn chars_of(s: &str) -> (r: Vec<char>)
    ensures
        r@ == s@,
{
    let mut out: Vec<char> = Vec::new();
    for c in it: s.chars()
        invariant
            it.seq() == s@,
            out@ == s@.take(it.index()),
    {
        out.push(c);
    }
    out
}

pub fn string_of(s: &[char]) -> (r: String)
    ensures
        r@ == s@,
{
    let mut out = String::new();
    let mut i: usize = 0;
    while i < s.len()
        invariant
            i <= s@.len(),
            out@ == s@.take(i as int),
        decreases s@.len() - i,
    {
        out.push(s[i]);
        i += 1;
    }
    out
}

pub fn owned(s: &str) -> (r: String)
    ensures
        r@ == s@,
{
    s.to_owned()
}

/// The texts of a list of slices.
pub open spec fn slices(v: Seq<&[char]>) -> Seq<Seq<char>> {
    Seq::new(v.len(), |i: int| v[i]@)
}

/// The texts of a list of strings.
pub open spec fn texts(v: Seq<String>) -> Seq<Seq<char>> {
    Seq::new(v.len(), |i: int| v[i]@)
}

/// The text of an optional string.
pub open spec fn opt_text(v: Option<String>) -> Option<Seq<char>> {
    match v {
        Some(s) => Some(s@),
        None => None,
    }
}

pub open spec fn opt_str(v: Option<&str>) -> Option<Seq<char>> {
    match v {
        Some(s) => Some(s@),
        None => None,
    }
}

pub open spec fn opt_slice(v: Option<&[char]>) -> Option<Seq<char>> {
    match v {
        Some(s) => Some(s@),
        None => None,
    }
}

pub fn copy_option(v: &Option<String>) -> (r: Option<String>)
    ensures
        opt_text(r) == opt_text(*v),
{
    match v {
        Some(s) => Some(s.clone()),
        None => None,
    }
}

pub fn take(s: &[char], n: usize) -> (r: &[char])
    requires
        n <= s@.len(),
    ensures
        r@ == s@.take(n as int),
{
    vstd::slice::slice_subrange(s, 0, n)
}

pub fn skip(s: &[char], n: usize) -> (r: &[char])
    requires
        n <= s@.len(),
    ensures
        r@ == s@.skip(n as int),
{
    vstd::slice::slice_subrange(s, n, s.len())
}

// ------------------------------------------------------------------ comparison

pub fn same(a: &[char], b: &[char]) -> (r: bool)
    ensures
        r == (a@ == b@),
{
    if a.len() != b.len() {
        return false;
    }
    let mut i: usize = 0;
    while i < a.len()
        invariant
            a@.len() == b@.len(),
            i <= a@.len(),
            forall|j: int| 0 <= j < i ==> a@[j] == b@[j],
        decreases a@.len() - i,
    {
        if a[i] != b[i] {
            return false;
        }
        i += 1;
    }
    assert(a@ =~= b@);
    true
}

pub fn is(a: &[char], b: &str) -> (r: bool)
    ensures
        r == (a@ == b@),
{
    let b = chars_of(b);
    same(a, b.as_slice())
}

pub fn str_is(a: &str, b: &str) -> (r: bool)
    ensures
        r == (a@ == b@),
{
    let a = chars_of(a);
    is(a.as_slice(), b)
}

pub open spec fn lower(s: Seq<char>) -> Seq<char> {
    Seq::new(s.len(), |i: int| lower_char(s[i]))
}

pub open spec fn upper(s: Seq<char>) -> Seq<char> {
    Seq::new(s.len(), |i: int| upper_char(s[i]))
}

/// Equality of texts up to the case of ASCII letters.
pub open spec fn eq_nocase(a: Seq<char>, b: Seq<char>) -> bool {
    lower(a) == lower(b)
}

pub fn same_nocase(a: &[char], b: &[char]) -> (r: bool)
    ensures
        r == eq_nocase(a@, b@),
{
    if a.len() != b.len() {
        proof {
            assert(lower(a@).len() != lower(b@).len());
        }
        return false;
    }
    let mut i: usize = 0;
    while i < a.len()
        invariant
            a@.len() == b@.len(),
            i <= a@.len(),
            forall|j: int| 0 <= j < i ==> lower_char(a@[j]) == lower_char(b@[j]),
        decreases a@.len() - i,
    {
        if lowercase_char(a[i]) != lowercase_char(b[i]) {
            proof {
                assert(lower(a@)[i as int] != lower(b@)[i as int]);
            }
            return false;
        }
        i += 1;
    }
    assert(lower(a@) =~= lower(b@));
    true
}

pub fn is_nocase(a: &[char], b: &str) -> (r: bool)
    ensures
        r == eq_nocase(a@, b@),
{
    let b = chars_of(b);
    same_nocase(a, b.as_slice())
}

pub fn str_is_nocase(a: &str, b: &str) -> (r: bool)
    ensures
        r == eq_nocase(a@, b@),
{
    let a = chars_of(a);
    is_nocase(a.as_slice(), b)
}

pub fn lowercase(s: &[char]) -> (r: Vec<char>)
    ensures
        r@ == lower(s@),
{
    let mut out: Vec<char> = Vec::new();
    let mut i: usize = 0;
    while i < s.len()
        invariant
            i <= s@.len(),
            out@ == lower(s@).take(i as int),
        decreases s@.len() - i,
    {
        out.push(lowercase_char(s[i]));
        i += 1;
    }
    out
}

pub fn uppercase(s: &[char]) -> (r: Vec<char>)
    ensures
        r@ == upper(s@),
{
    let mut out: Vec<char> = Vec::new();
    let mut i: usize = 0;
    while i < s.len()
        invariant
            i <= s@.len(),
            out@ == upper(s@).take(i as int),
        decreases s@.len() - i,
    {
        out.push(uppercase_char(s[i]));
        i += 1;
    }
    out
}

pub open spec fn has_prefix(s: Seq<char>, p: Seq<char>) -> bool {
    p.len() <= s.len() && s.take(p.len() as int) == p
}

pub fn starts_with(s: &[char], p: &str) -> (r: bool)
    ensures
        r == has_prefix(s@, p@),
{
    let p = chars_of(p);
    if p.len() > s.len() {
        return false;
    }
    same(take(s, p.len()), p.as_slice())
}

/// What follows a prefix.
pub open spec fn after_prefix(s: Seq<char>, p: Seq<char>) -> Option<Seq<char>> {
    if has_prefix(s, p) {
        Some(s.skip(p.len() as int))
    } else {
        None
    }
}

pub fn strip_prefix<'a>(s: &'a [char], p: &str) -> (r: Option<&'a [char]>)
    ensures
        opt_slice(r) == after_prefix(s@, p@),
{
    if starts_with(s, p) {
        let n: usize = chars_of(p).len();
        Some(skip(s, n))
    } else {
        None
    }
}

// ------------------------------------------------------------------ searching

/// The index of the first `c` in `s`, or the length of `s`.
pub open spec fn find(s: Seq<char>, c: char) -> int
    decreases s.len(),
{
    if s.len() == 0 {
        0
    } else if s[0] == c {
        0
    } else {
        1 + find(s.skip(1), c)
    }
}

pub proof fn lemma_find(s: Seq<char>, c: char)
    ensures
        0 <= find(s, c) <= s.len(),
        find(s, c) < s.len() ==> s[find(s, c)] == c,
        forall|j: int| 0 <= j < find(s, c) ==> s[j] != c,
    decreases s.len(),
{
    if s.len() > 0 && s[0] != c {
        lemma_find(s.skip(1), c);
        assert forall|j: int| 0 <= j < find(s, c) implies s[j] != c by {
            if j > 0 {
                assert(s.skip(1)[j - 1] == s[j]);
            }
        }
    }
}

pub proof fn lemma_find_unique(s: Seq<char>, c: char, k: int)
    requires
        0 <= k <= s.len(),
        k < s.len() ==> s[k] == c,
        forall|j: int| 0 <= j < k ==> s[j] != c,
    ensures
        find(s, c) == k,
{
    lemma_find(s, c);
    if find(s, c) < k {
        assert(s[find(s, c)] == c);
    }
}

pub fn index_of(s: &[char], c: char) -> (r: usize)
    ensures
        r == find(s@, c),
        r <= s@.len(),
        r < s@.len() ==> s@[r as int] == c,
        forall|j: int| 0 <= j < r ==> s@[j] != c,
{
    let mut i: usize = 0;
    while i < s.len()
        invariant
            i <= s@.len(),
            forall|j: int| 0 <= j < i ==> s@[j] != c,
        decreases s@.len() - i,
    {
        if s[i] == c {
            proof {
                lemma_find_unique(s@, c, i as int);
            }
            return i;
        }
        i += 1;
    }
    proof {
        lemma_find_unique(s@, c, i as int);
    }
    i
}

pub fn contains_char(s: &[char], c: char) -> (r: bool)
    ensures
        r == s@.contains(c),
{
    let i = index_of(s, c);
    if i < s.len() {
        assert(s@[i as int] == c);
        true
    } else {
        false
    }
}

/// The index of the first place where `p` stands in `s`, or -1.
pub open spec fn find_text(s: Seq<char>, p: Seq<char>) -> int
    decreases s.len(),
{
    if has_prefix(s, p) {
        0
    } else if s.len() == 0 {
        -1
    } else {
        let k = find_text(s.skip(1), p);
        if k < 0 {
            -1
        } else {
            k + 1
        }
    }
}

pub proof fn lemma_find_text(s: Seq<char>, p: Seq<char>)
    ensures
        -1 <= find_text(s, p) <= s.len(),
        find_text(s, p) >= 0 ==> find_text(s, p) + p.len() <= s.len() && s.subrange(
            find_text(s, p),
            find_text(s, p) + p.len(),
        ) == p,
    decreases s.len(),
{
    if has_prefix(s, p) {
        assert(s.subrange(0, p.len() as int) =~= s.take(p.len() as int));
    } else if s.len() > 0 {
        lemma_find_text(s.skip(1), p);
        let k = find_text(s.skip(1), p);
        if k >= 0 {
            assert(s.subrange(k + 1, k + 1 + p.len()) =~= s.skip(1).subrange(k, k + p.len()));
        }
    }
}

pub fn index_of_text(s: &[char], p: &str) -> (r: Option<usize>)
    ensures
        match r {
            Some(i) => i == find_text(s@, p@) && i + p@.len() <= s@.len(),
            None => find_text(s@, p@) == -1,
        },
{
    let mut i: usize = 0;
    let ghost whole = s@;
    proof {
        lemma_find_text(s@, p@);
        assert(s@.skip(0) =~= s@);
    }
    loop
        invariant
            i <= s@.len(),
            s@ == whole,
            find_text(s@, p@) == {
                let k = find_text(s@.skip(i as int), p@);
                if k < 0 {
                    -1
                } else {
                    k + i
                }
            },
        decreases s@.len() - i,
    {
        let rest = skip(s, i);
        proof {
            lemma_find_text(s@, p@);
        }
        if starts_with(rest, p) {
            return Some(i);
        }
        if i == s.len() {
            return None;
        }
        proof {
            assert(s@.skip(i as int).skip(1) =~= s@.skip(i + 1));
        }
        i += 1;
    }
}

pub fn contains_text(s: &[char], p: &str) -> (r: bool)
    ensures
        r == (find_text(s@, p@) >= 0),
{
    index_of_text(s, p).is_some()
}

/// The index of the last `c` in `s`, or -1.
pub open spec fn find_last(s: Seq<char>, c: char) -> int
    decreases s.len(),
{
    if s.len() == 0 {
        -1
    } else if s.last() == c {
        s.len() - 1
    } else {
        find_last(s.drop_last(), c)
    }
}

pub fn last_index_of(s: &[char], c: char) -> (r: Option<usize>)
    ensures
        match r {
            Some(i) => i == find_last(s@, c) && i < s@.len() && s@[i as int] == c,
            None => find_last(s@, c) == -1,
        },
{
    let mut i: usize = s.len();
    assert(s@.take(i as int) =~= s@);
    while i > 0
        invariant
            i <= s@.len(),
            find_last(s@, c) == find_last(s@.take(i as int), c),
        decreases i,
    {
        i -= 1;
        assert(s@.take(i + 1).drop_last() =~= s@.take(i as int));
        if s[i] == c {
            return Some(i);
        }
    }
    None
}

/// What stands before and after the first `c`.
pub open spec fn split_once(s: Seq<char>, c: char) -> Option<(Seq<char>, Seq<char>)> {
    let i = find(s, c);
    if i < s.len() {
        Some((s.take(i), s.skip(i + 1)))
    } else {
        None
    }
}

pub open spec fn opt_pair(v: Option<(&[char], &[char])>) -> Option<(Seq<char>, Seq<char>)> {
    match v {
        Some((a, b)) => Some((a@, b@)),
        None => None,
    }
}

pub fn cut(s: &[char], c: char) -> (r: Option<(&[char], &[char])>)
    ensures
        opt_pair(r) == split_once(s@, c),
{
    let i = index_of(s, c);
    if i < s.len() {
        Some((take(s, i), skip(s, i + 1)))
    } else {
        None
    }
}

/// What stands before and after the last `c`.
pub open spec fn rsplit_once(s: Seq<char>, c: char) -> Option<(Seq<char>, Seq<char>)> {
    let i = find_last(s, c);
    if i >= 0 {
        Some((s.take(i), s.skip(i + 1)))
    } else {
        None
    }
}

pub fn cut_last(s: &[char], c: char) -> (r: Option<(&[char], &[char])>)
    ensures
        opt_pair(r) == rsplit_once(s@, c),
{
    let n: usize = s.len();
    match last_index_of(s, c) {
        Some(i) => Some((take(s, i), if i < n { skip(s, i + 1) } else { skip(s, n) })),
        None => None,
    }
}

/// The parts of `s` between the occurrences of `c`: always at least one.
pub open spec fn split(s: Seq<char>, c: char) -> Seq<Seq<char>>
    decreases s.len(),
{
    let i = find(s, c);
    if 0 <= i < s.len() {
        seq![s.take(i)] + split(s.skip(i + 1), c)
    } else {
        seq![s]
    }
}

pub fn split_at_char(s: &[char], c: char) -> (r: Vec<&[char]>)
    ensures
        slices(r@) == split(s@, c),
        r@.len() >= 1,
{
    let mut out: Vec<&[char]> = Vec::new();
    let mut rest: &[char] = s;
    loop
        invariant
            slices(out@) + split(rest@, c) == split(s@, c),
        decreases rest@.len(),
    {
        let i = index_of(rest, c);
        if i < rest.len() {
            let ghost before = out@;
            let ghost r0 = rest@;
            let part = take(rest, i);
            out.push(part);
            rest = skip(rest, i + 1);
            proof {
                assert(slices(out@) =~= slices(before).push(r0.take(i as int)));
                assert(slices(before) + split(r0, c) =~= slices(out@) + split(rest@, c));
            }
        } else {
            let ghost before = out@;
            out.push(rest);
            proof {
                assert(slices(out@) =~= slices(before) + seq![rest@]);
            }
            return out;
        }
    }
}

pub proof fn lemma_join_front(first: Seq<char>, rest: Seq<Seq<char>>, sep: Seq<char>)
    requires
        rest.len() > 0,
    ensures
        join(seq![first] + rest, sep) == first + sep + join(rest, sep),
    decreases rest.len(),
{
    let all = seq![first] + rest;
    if rest.len() == 1 {
        assert(all.drop_last() =~= seq![first]);
        assert(join(seq![first], sep) == first);
        assert(join(all, sep) =~= first + sep + join(rest, sep));
    } else {
        assert(all.drop_last() =~= seq![first] + rest.drop_last());
        lemma_join_front(first, rest.drop_last(), sep);
        assert(join(all, sep) =~= first + sep + join(rest, sep));
    }
}

/// A text split at a character and joined with it again is the text.
pub proof fn law_split_joins_back(s: Seq<char>, c: char)
    ensures
        split(s, c).len() >= 1,
        join(split(s, c), seq![c]) == s,
    decreases s.len(),
{
    lemma_find(s, c);
    let i = find(s, c);
    if i < s.len() {
        law_split_joins_back(s.skip(i + 1), c);
        lemma_join_front(s.take(i), split(s.skip(i + 1), c), seq![c]);
        assert(s.take(i) + seq![c] + s.skip(i + 1) =~= s);
    }
}

/// The parts joined with a separator between them.
pub open spec fn join(parts: Seq<Seq<char>>, sep: Seq<char>) -> Seq<char>
    decreases parts.len(),
{
    if parts.len() == 0 {
        seq![]
    } else if parts.len() == 1 {
        parts[0]
    } else {
        join(parts.drop_last(), sep) + sep + parts.last()
    }
}

pub fn joined(parts: &[String], sep: &str) -> (r: String)
    ensures
        r@ == join(texts(parts@), sep@),
{
    let mut out = String::new();
    let mut i: usize = 0;
    let ghost all = texts(parts@);
    while i < parts.len()
        invariant
            i <= parts@.len(),
            all == texts(parts@),
            out@ == join(all.take(i as int), sep@),
        decreases parts@.len() - i,
    {
        if i > 0 {
            out.append(sep);
        }
        out.append(parts[i].as_str());
        i += 1;
        proof {
            assert(all.take(i as int).drop_last() =~= all.take(i - 1));
            assert(all.take(i as int).last() == parts@[i - 1]@);
        }
    }
    assert(all.take(i as int) =~= all);
    out
}

// ------------------------------------------------------------------ trimming

pub open spec fn trim_start(s: Seq<char>) -> Seq<char>
    decreases s.len(),
{
    if s.len() > 0 && is_space(s[0]) {
        trim_start(s.skip(1))
    } else {
        s
    }
}

pub open spec fn trim_end(s: Seq<char>) -> Seq<char>
    decreases s.len(),
{
    if s.len() > 0 && is_space(s.last()) {
        trim_end(s.drop_last())
    } else {
        s
    }
}

/// The text without the white space around it.
pub open spec fn trim(s: Seq<char>) -> Seq<char> {
    trim_end(trim_start(s))
}

pub fn trimmed_start(s: &[char]) -> (r: &[char])
    ensures
        r@ == trim_start(s@),
{
    let mut i: usize = 0;
    assert(s@.skip(0) =~= s@);
    while i < s.len() && space(s[i])
        invariant
            i <= s@.len(),
            trim_start(s@) == trim_start(s@.skip(i as int)),
        decreases s@.len() - i,
    {
        assert(s@.skip(i as int).skip(1) =~= s@.skip(i + 1));
        i += 1;
    }
    skip(s, i)
}

pub fn trimmed_end(s: &[char]) -> (r: &[char])
    ensures
        r@ == trim_end(s@),
{
    let mut i: usize = s.len();
    assert(s@.take(i as int) =~= s@);
    while i > 0 && space(s[i - 1])
        invariant
            i <= s@.len(),
            trim_end(s@) == trim_end(s@.take(i as int)),
        decreases i,
    {
        assert(s@.take(i as int).drop_last() =~= s@.take(i - 1));
        i -= 1;
    }
    take(s, i)
}

pub fn trimmed(s: &[char]) -> (r: &[char])
    ensures
        r@ == trim(s@),
{
    trimmed_end(trimmed_start(s))
}

/// The text without the occurrences of `c` at its start.
pub open spec fn strip_start(s: Seq<char>, c: char) -> Seq<char>
    decreases s.len(),
{
    if s.len() > 0 && s[0] == c {
        strip_start(s.skip(1), c)
    } else {
        s
    }
}

pub fn stripped_start(s: &[char], c: char) -> (r: &[char])
    ensures
        r@ == strip_start(s@, c),
{
    let mut i: usize = 0;
    assert(s@.skip(0) =~= s@);
    while i < s.len() && s[i] == c
        invariant
            i <= s@.len(),
            strip_start(s@, c) == strip_start(s@.skip(i as int), c),
        decreases s@.len() - i,
    {
        assert(s@.skip(i as int).skip(1) =~= s@.skip(i + 1));
        i += 1;
    }
    skip(s, i)
}

/// The text without the occurrences of `c` at its end.
pub open spec fn strip_end(s: Seq<char>, c: char) -> Seq<char>
    decreases s.len(),
{
    if s.len() > 0 && s.last() == c {
        strip_end(s.drop_last(), c)
    } else {
        s
    }
}

pub fn stripped_end(s: &[char], c: char) -> (r: &[char])
    ensures
        r@ == strip_end(s@, c),
{
    let mut i: usize = s.len();
    assert(s@.take(i as int) =~= s@);
    while i > 0 && s[i - 1] == c
        invariant
            i <= s@.len(),
            strip_end(s@, c) == strip_end(s@.take(i as int), c),
        decreases i,
    {
        assert(s@.take(i as int).drop_last() =~= s@.take(i - 1));
        i -= 1;
    }
    take(s, i)
}

// ------------------------------------------------------------------ lines and words

pub open spec fn without_return(s: Seq<char>) -> Seq<char> {
    if s.len() > 0 && s.last() == '\r' {
        s.drop_last()
    } else {
        s
    }
}

/// The lines of a text, each without its line end; an unterminated last line counts if it is not
/// empty.
pub open spec fn lines(s: Seq<char>) -> Seq<Seq<char>>
    decreases s.len(),
{
    let i = find(s, '\n');
    if s.len() == 0 {
        seq![]
    } else if 0 <= i < s.len() {
        seq![without_return(s.take(i))] + lines(s.skip(i + 1))
    } else {
        seq![s]
    }
}

pub fn lines_of(s: &[char]) -> (r: Vec<&[char]>)
    ensures
        slices(r@) == lines(s@),
{
    let mut out: Vec<&[char]> = Vec::new();
    let mut rest: &[char] = s;
    while rest.len() > 0
        invariant
            slices(out@) + lines(rest@) == lines(s@),
        decreases rest@.len(),
    {
        let i = index_of(rest, '\n');
        let ghost before = out@;
        let ghost r0 = rest@;
        if i < rest.len() {
            let mut part = take(rest, i);
            if i > 0 && part[i - 1] == '\r' {
                let shorter = take(part, i - 1);
                assert(shorter@ =~= part@.drop_last());
                part = shorter;
            }
            out.push(part);
            rest = skip(rest, i + 1);
            proof {
                assert(slices(out@) =~= slices(before).push(part@));
                assert(slices(before) + lines(r0) =~= slices(out@) + lines(rest@));
            }
        } else {
            out.push(rest);
            rest = skip(rest, rest.len());
            proof {
                assert(slices(out@) =~= slices(before) + seq![r0]);
                assert(lines(rest@) =~= Seq::<Seq<char>>::empty());
            }
        }
    }
    assert(lines(rest@) =~= Seq::<Seq<char>>::empty());
    out
}

/// The index of the first white space, or the length.
pub open spec fn find_space(s: Seq<char>) -> int
    decreases s.len(),
{
    if s.len() == 0 || is_space(s[0]) {
        0
    } else {
        1 + find_space(s.skip(1))
    }
}

pub proof fn lemma_find_space(s: Seq<char>)
    ensures
        0 <= find_space(s) <= s.len(),
        find_space(s) < s.len() ==> is_space(s[find_space(s)]),
        s.len() > 0 && !is_space(s[0]) ==> find_space(s) > 0,
    decreases s.len(),
{
    if s.len() > 0 && !is_space(s[0]) {
        lemma_find_space(s.skip(1));
    }
}

pub proof fn lemma_trim_start(s: Seq<char>)
    ensures
        trim_start(s).len() <= s.len(),
        trim_start(s).len() > 0 ==> !is_space(trim_start(s)[0]),
    decreases s.len(),
{
    if s.len() > 0 && is_space(s[0]) {
        lemma_trim_start(s.skip(1));
    }
}

pub proof fn lemma_trim_end(s: Seq<char>)
    ensures
        trim_end(s).len() <= s.len(),
        trim_end(s) == s.take(trim_end(s).len() as int),
        trim_end(s).len() > 0 ==> !is_space(trim_end(s).last()),
    decreases s.len(),
{
    if s.len() > 0 && is_space(s.last()) {
        lemma_trim_end(s.drop_last());
        assert(s.drop_last().take(trim_end(s).len() as int) =~= s.take(trim_end(s).len() as int));
    } else {
        assert(s.take(s.len() as int) =~= s);
    }
}

/// The words of a text: its longest parts without white space.
pub open spec fn words(s: Seq<char>) -> Seq<Seq<char>>
    decreases s.len(),
    via words_decreases
{
    let t = trim_start(s);
    if t.len() == 0 {
        seq![]
    } else {
        seq![t.take(find_space(t))] + words(t.skip(find_space(t)))
    }
}

#[via_fn]
proof fn words_decreases(s: Seq<char>) {
    lemma_trim_start(s);
    lemma_find_space(trim_start(s));
}

pub fn space_index(s: &[char]) -> (r: usize)
    ensures
        r == find_space(s@),
        r <= s@.len(),
{
    let mut i: usize = 0;
    assert(s@.skip(0) =~= s@);
    while i < s.len() && !space(s[i])
        invariant
            i <= s@.len(),
            find_space(s@) == i + find_space(s@.skip(i as int)),
        decreases s@.len() - i,
    {
        assert(s@.skip(i as int).skip(1) =~= s@.skip(i + 1));
        i += 1;
    }
    i
}

pub fn words_of(s: &[char]) -> (r: Vec<&[char]>)
    ensures
        slices(r@) == words(s@),
{
    let mut out: Vec<&[char]> = Vec::new();
    let mut rest: &[char] = s;
    loop
        invariant
            slices(out@) + words(rest@) == words(s@),
        decreases rest@.len(),
    {
        let t = trimmed_start(rest);
        if t.len() == 0 {
            assert(words(rest@) =~= Seq::<Seq<char>>::empty());
            return out;
        }
        let i = space_index(t);
        let ghost before = out@;
        let ghost r0 = rest@;
        proof {
            lemma_trim_start(r0);
            lemma_find_space(t@);
        }
        let part = take(t, i);
        out.push(part);
        rest = skip(t, i);
        proof {
            assert(slices(out@) =~= slices(before).push(part@));
            assert(slices(before) + words(r0) =~= slices(out@) + words(rest@));
        }
    }
}

// ------------------------------------------------------------------ numbers

/// The value of a text of decimal digits.
pub open spec fn value10(s: Seq<char>) -> nat
    decreases s.len(),
{
    if s.len() == 0 {
        0
    } else {
        value10(s.drop_last()) * 10 + (s.last() as int - '0' as int) as nat
    }
}

pub open spec fn all_digits(s: Seq<char>) -> bool {
    forall|i: int| 0 <= i < s.len() ==> is_digit(#[trigger] s[i])
}

/// The value of a text of hexadecimal digits.
pub open spec fn value16(s: Seq<char>) -> nat
    decreases s.len(),
{
    if s.len() == 0 {
        0
    } else {
        value16(s.drop_last()) * 16 + hex_digit_value(s.last()).unwrap()
    }
}

pub open spec fn all_hex(s: Seq<char>) -> bool {
    forall|i: int| 0 <= i < s.len() ==> hex_digit_value(#[trigger] s[i]).is_some()
}

pub open spec fn without_plus(s: Seq<char>) -> Seq<char> {
    if s.len() > 0 && s[0] == '+' {
        s.skip(1)
    } else {
        s
    }
}

/// The number a text of decimal digits stands for, where it is at most `max`.
pub open spec fn digits_number(s: Seq<char>, max: nat) -> Option<nat> {
    if s.len() > 0 && all_digits(s) && value10(s) <= max {
        Some(value10(s))
    } else {
        None
    }
}

/// An unsigned number as the standard library reads it: digits after an optional plus sign.
pub open spec fn number(s: Seq<char>, max: nat) -> Option<nat> {
    digits_number(without_plus(s), max)
}

/// A hexadecimal number: digits after an optional plus sign.
pub open spec fn hex_number(s: Seq<char>, max: nat) -> Option<nat> {
    let t = without_plus(s);
    if t.len() > 0 && all_hex(t) && value16(t) <= max {
        Some(value16(t))
    } else {
        None
    }
}

/// A signed 64-bit number: digits after an optional sign.
pub open spec fn signed_number(s: Seq<char>) -> Option<int> {
    if s.len() > 0 && s[0] == '-' {
        match digits_number(s.skip(1), 0x8000_0000_0000_0000) {
            Some(n) => Some(-(n as int)),
            None => None,
        }
    } else {
        match number(s, 0x7fff_ffff_ffff_ffff) {
            Some(n) => Some(n as int),
            None => None,
        }
    }
}

fn parse_digits(s: &[char], max: u64) -> (r: Option<u64>)
    ensures
        match r {
            Some(n) => digits_number(s@, max as nat) == Some(n as nat),
            None => digits_number(s@, max as nat).is_none(),
        },
{
    if s.len() == 0 {
        return None;
    }
    let mut acc: u64 = 0;
    let mut over: bool = false;
    let mut i: usize = 0;
    while i < s.len()
        invariant
            i <= s@.len(),
            all_digits(s@.take(i as int)),
            over ==> value10(s@.take(i as int)) > max,
            !over ==> acc == value10(s@.take(i as int)) && acc <= max,
        decreases s@.len() - i,
    {
        let c = s[i];
        if !digit(c) {
            assert(!is_digit(s@[i as int]));
            return None;
        }
        assert(s@.take(i + 1).drop_last() =~= s@.take(i as int));
        let d: u32 = c as u32 - '0' as u32;
        if !over {
            let n: u128 = acc as u128 * 10 + d as u128;
            if n > max as u128 {
                over = true;
            } else {
                acc = n as u64;
            }
        }
        i += 1;
    }
    assert(s@.take(i as int) =~= s@);
    if over {
        None
    } else {
        Some(acc)
    }
}

pub fn parse_u64(s: &[char], max: u64) -> (r: Option<u64>)
    ensures
        match r {
            Some(n) => number(s@, max as nat) == Some(n as nat) && n <= max,
            None => number(s@, max as nat).is_none(),
        },
{
    if s.len() > 0 && s[0] == '+' {
        parse_digits(skip(s, 1), max)
    } else {
        parse_digits(s, max)
    }
}

pub open spec fn opt_nat_u16(v: Option<u16>) -> Option<nat> {
    match v {
        Some(n) => Some(n as nat),
        None => None,
    }
}

pub open spec fn opt_nat_u32(v: Option<u32>) -> Option<nat> {
    match v {
        Some(n) => Some(n as nat),
        None => None,
    }
}

pub open spec fn opt_nat_usize(v: Option<usize>) -> Option<nat> {
    match v {
        Some(n) => Some(n as nat),
        None => None,
    }
}

pub fn parse_u8(s: &[char]) -> (r: Option<u8>)
    ensures
        match r {
            Some(n) => number(s@, 255) == Some(n as nat),
            None => number(s@, 255).is_none(),
        },
{
    match parse_u64(s, 255) {
        Some(n) => Some(n as u8),
        None => None,
    }
}

pub fn parse_u16(s: &[char]) -> (r: Option<u16>)
    ensures
        opt_nat_u16(r) == number(s@, 65535),
{
    match parse_u64(s, 65535) {
        Some(n) => Some(n as u16),
        None => None,
    }
}

pub fn parse_u32(s: &[char]) -> (r: Option<u32>)
    ensures
        opt_nat_u32(r) == number(s@, 0xffff_ffff),
{
    match parse_u64(s, 0xffff_ffff) {
        Some(n) => Some(n as u32),
        None => None,
    }
}

pub fn parse_usize(s: &[char]) -> (r: Option<usize>)
    ensures
        opt_nat_usize(r) == number(s@, usize::MAX as nat),
{
    match parse_u64(s, usize::MAX as u64) {
        Some(n) => Some(n as usize),
        None => None,
    }
}

pub fn parse_i64(s: &[char]) -> (r: Option<i64>)
    ensures
        match r {
            Some(n) => signed_number(s@) == Some(n as int),
            None => signed_number(s@).is_none(),
        },
{
    if s.len() > 0 && s[0] == '-' {
        match parse_digits(skip(s, 1), 0x8000_0000_0000_0000) {
            Some(n) => if n == 0x8000_0000_0000_0000 {
                Some(i64::MIN)
            } else {
                Some(-(n as i64))
            },
            None => None,
        }
    } else {
        match parse_u64(s, 0x7fff_ffff_ffff_ffff) {
            Some(n) => Some(n as i64),
            None => None,
        }
    }
}

pub fn parse_hex(s: &[char], max: u64) -> (r: Option<u64>)
    ensures
        match r {
            Some(n) => hex_number(s@, max as nat) == Some(n as nat) && n <= max,
            None => hex_number(s@, max as nat).is_none(),
        },
{
    let t = if s.len() > 0 && s[0] == '+' {
        skip(s, 1)
    } else {
        s
    };
    if t.len() == 0 {
        return None;
    }
    let mut acc: u64 = 0;
    let mut over: bool = false;
    let mut i: usize = 0;
    while i < t.len()
        invariant
            i <= t@.len(),
            t@ == without_plus(s@),
            all_hex(t@.take(i as int)),
            over ==> value16(t@.take(i as int)) > max,
            !over ==> acc == value16(t@.take(i as int)) && acc <= max,
        decreases t@.len() - i,
    {
        match hex_digit(t[i]) {
            None => {
                assert(hex_digit_value(t@[i as int]).is_none());
                return None;
            },
            Some(d) => {
                assert(t@.take(i + 1).drop_last() =~= t@.take(i as int));
                if !over {
                    let n: u128 = acc as u128 * 16 + d as u128;
                    if n > max as u128 {
                        over = true;
                    } else {
                        acc = n as u64;
                    }
                }
                i += 1;
            },
        }
    }
    assert(t@.take(i as int) =~= t@);
    if over {
        None
    } else {
        Some(acc)
    }
}

/// The decimal notation of a number.
pub open spec fn dec(n: nat) -> Seq<char>
    decreases n,
{
    if n < 10 {
        seq![(n + '0' as nat) as char]
    } else {
        dec(n / 10).push((n % 10 + '0' as nat) as char)
    }
}

/// The decimal notation of an integer.
pub open spec fn dec_int(n: int) -> Seq<char> {
    if n < 0 {
        seq!['-'] + dec((-n) as nat)
    } else {
        dec(n as nat)
    }
}

pub fn push_dec(out: &mut String, n: u64)
    ensures
        final(out)@ == old(out)@ + dec(n as nat),
    decreases n,
{
    if n >= 10 {
        push_dec(out, n / 10);
    }
    let d: u8 = (n % 10) as u8;
    out.push((d + 48) as char);
    proof {
        if n >= 10 {
            assert(out@ =~= old(out)@ + dec(n as nat));
        } else {
            assert(out@ =~= old(out)@ + dec(n as nat));
        }
    }
}

pub fn decimal(n: u64) -> (r: String)
    ensures
        r@ == dec(n as nat),
{
    let mut out = String::new();
    push_dec(&mut out, n);
    assert(out@ =~= dec(n as nat));
    out
}

pub fn decimal_i64(n: i64) -> (r: String)
    ensures
        r@ == dec_int(n as int),
{
    let mut out = String::new();
    if n < 0 {
        out.push('-');
        let m: u64 = if n == i64::MIN {
            0x8000_0000_0000_0000
        } else {
            (-n) as u64
        };
        push_dec(&mut out, m);
        assert(out@ =~= dec_int(n as int));
    } else {
        push_dec(&mut out, n as u64);
        assert(out@ =~= dec_int(n as int));
    }
    out
}

/// The decimal notation of a number reads back as the number.
pub proof fn lemma_dec_reads_back(n: nat)
    ensures
        dec(n).len() > 0,
        all_digits(dec(n)),
        value10(dec(n)) == n,
    decreases n,
{
    if n < 10 {
        assert(dec(n).drop_last() =~= Seq::<char>::empty());
        assert(value10(dec(n).drop_last()) == 0);
        assert(dec(n).last() as int - '0' as int == n);
    } else {
        lemma_dec_reads_back(n / 10);
        assert(dec(n).drop_last() =~= dec(n / 10));
        assert(dec(n).last() as int - '0' as int == n % 10);
    }
}

/// Any number written in decimal notation is read back as itself, where it fits.
pub proof fn law_decimal_round_trip(n: nat, max: nat)
    requires
        n <= max,
    ensures
        number(dec(n), max) == Some(n),
{
    lemma_dec_reads_back(n);
    assert(is_digit(dec(n)[0]));
}

/// The lower-case hexadecimal digit of a number below 16.
pub open spec fn hex_char(n: nat) -> char {
    if n < 10 {
        (n + '0' as nat) as char
    } else {
        (n - 10 + 'a' as nat) as char
    }
}

pub fn hex_char_of(n: u8) -> (r: char)
    requires
        n < 16,
    ensures
        r == hex_char(n as nat),
{
    if n < 10 {
        (n + 48) as char
    } else {
        (n - 10 + 97) as char
    }
}

/// The last `w` hexadecimal digits of a number.
pub open spec fn hex_fixed(n: nat, w: nat) -> Seq<char>
    decreases w,
{
    if w == 0 {
        seq![]
    } else {
        hex_fixed(n / 16, (w - 1) as nat).push(hex_char(n % 16))
    }
}

/// The two lower-case digits of each byte, in order.
pub open spec fn hex_bytes(b: Seq<u8>) -> Seq<char>
    decreases b.len(),
{
    if b.len() == 0 {
        seq![]
    } else {
        hex_bytes(b.drop_last()) + seq![hex_char(b.last() as nat / 16), hex_char(
            b.last() as nat % 16,
        )]
    }
}

pub fn hex_of(b: &[u8]) -> (r: String)
    ensures
        r@ == hex_bytes(b@),
{
    let mut out = String::new();
    let mut i: usize = 0;
    while i < b.len()
        invariant
            i <= b@.len(),
            out@ == hex_bytes(b@.take(i as int)),
        decreases b@.len() - i,
    {
        out.push(hex_char_of(b[i] / 16));
        out.push(hex_char_of(b[i] % 16));
        i += 1;
        proof {
            assert(b@.take(i as int).drop_last() =~= b@.take(i - 1));
            assert(out@ =~= hex_bytes(b@.take(i as int)));
        }
    }
    assert(b@.take(i as int) =~= b@);
    out
}

// ------------------------------------------------------------------ bytes

/// The text `String::from_utf8_lossy` makes of bytes that are not valid UTF-8.
pub uninterp spec fn repaired_utf8(b: Seq<u8>) -> Seq<char>;

/// The text of bytes read as UTF-8, malformed sequences replaced.
pub open spec fn lossy(b: Seq<u8>) -> Seq<char> {
    if valid_utf8(b) {
        decode_utf8(b)
    } else {
        repaired_utf8(b)
    }
}

/// `String::from_utf8_lossy`: valid UTF-8 is decoded as it stands; what is put in place of
/// malformed sequences is a function of the bytes that is left unstated.
#[verifier::external_body]
pub(crate) fn lossy_text(b: &[u8]) -> (r: String)
    ensures
        valid_utf8(b@) ==> r@ == decode_utf8(b@),
        !valid_utf8(b@) ==> r@ == repaired_utf8(b@),
{
    String::from_utf8_lossy(b).into_owned()
}

/// Text written as UTF-8 reads back as itself.
pub proof fn law_utf8_reads_back(s: Seq<char>)
    ensures
        valid_utf8(encode_utf8(s)),
        lossy(encode_utf8(s)) == s,
{
    broadcast use vstd::utf8::encode_utf8_valid_utf8;
    broadcast use vstd::utf8::encode_utf8_decode_utf8;

}

/// An ASCII character is one byte, its own number; any other has only bytes from 0x80 on.
pub proof fn lemma_scalar_bytes(c: u32)
    requires
        is_scalar(c),
    ensures
        encode_scalar(c).len() >= 1,
        c < 0x80 ==> encode_scalar(c) == seq![c as u8],
        c >= 0x80 ==> forall|i: int|
            0 <= i < encode_scalar(c).len() ==> #[trigger] encode_scalar(c)[i] >= 0x80,
{
    if c < 0x80 {
        assert((c & 0x7F) as u8 == c as u8) by (bit_vector)
            requires
                c < 0x80,
        ;
        assert(encode_scalar(c) =~= seq![c as u8]);
    } else {
        assert(forall|x: u8| #[trigger] (0xC0u8 | x) >= 0x80 && #[trigger] (0xE0u8 | x) >= 0x80
            && #[trigger] (0xF0u8 | x) >= 0x80 && #[trigger] (0x80u8 | x) >= 0x80) by (bit_vector);
        let a = ((c >> 6) & 0x1F) as u8;
        let b = ((c >> 12) & 0x0F) as u8;
        let d = ((c >> 18) & 0x7) as u8;
        let e = (c & 0x3F) as u8;
        let f = ((c >> 6) & 0x3F) as u8;
        let g = ((c >> 12) & 0x3F) as u8;
        assert(0xC0u8 | a >= 0x80 && 0xE0u8 | b >= 0x80 && 0xF0u8 | d >= 0x80 && 0x80u8 | e >= 0x80
            && 0x80u8 | f >= 0x80 && 0x80u8 | g >= 0x80) by (bit_vector);
    }
}

/// A byte below 0x80 in UTF-8 stands for the character of that number.
pub proof fn lemma_low_byte(s: Seq<char>, i: int)
    requires
        0 <= i < encode_utf8(s).len(),
        encode_utf8(s)[i] < 0x80,
    ensures
        exists|j: int| 0 <= j < s.len() && (#[trigger] s[j]) as u32 == encode_utf8(s)[i] as u32,
    decreases s.len(),
{
    let first = encode_scalar(s[0] as u32);
    char_is_scalar(s[0]);
    lemma_scalar_bytes(s[0] as u32);
    if i < first.len() {
        assert(encode_utf8(s)[i] == first[i]);
        assert(s[0] as u32 == encode_utf8(s)[i] as u32);
    } else {
        let rest = s.drop_first();
        assert(encode_utf8(s)[i] == encode_utf8(rest)[i - first.len()]);
        lemma_low_byte(rest, i - first.len());
        let j = choose|j: int|
            0 <= j < rest.len() && (#[trigger] rest[j]) as u32 == encode_utf8(rest)[i
                - first.len()] as u32;
        assert(s[j + 1] as u32 == encode_utf8(s)[i] as u32);
    }
}

/// The first byte of a text: that of its first character.
pub proof fn lemma_first_byte(s: Seq<char>)
    requires
        s.len() > 0,
    ensures
        encode_utf8(s).len() > 0,
        s[0] as u32 >= 0x80 ==> encode_utf8(s)[0] >= 0x80,
        (s[0] as u32) < 0x80 ==> encode_utf8(s)[0] == s[0] as u32,
{
    char_is_scalar(s[0]);
    lemma_scalar_bytes(s[0] as u32);
}

pub fn append_bytes(out: &mut Vec<u8>, b: &[u8])
    ensures
        final(out)@ == old(out)@ + b@,
{
    out.extend_from_slice(b);
    assert(out@ =~= old(out)@ + b@);
}

pub open spec fn pairs(v: Seq<(String, String)>) -> Seq<(Seq<char>, Seq<char>)> {
    Seq::new(v.len(), |i: int| (v[i].0@, v[i].1@))
}

pub fn copy_pairs(v: &Vec<(String, String)>) -> (r: Vec<(String, String)>)
    ensures
        pairs(r@) == pairs(v@),
{
    let mut out: Vec<(String, String)> = Vec::new();
    let mut i: usize = 0;
    while i < v.len()
        invariant
            i <= v@.len(),
            pairs(out@) == pairs(v@).take(i as int),
        decreases v@.len() - i,
    {
        let ghost before = out@;
        out.push((v[i].0.clone(), v[i].1.clone()));
        proof {
            assert(pairs(out@) =~= pairs(before).push((v@[i as int].0@, v@[i as int].1@)));
        }
        i += 1;
    }
    assert(pairs(v@).take(i as int) =~= pairs(v@));
    out
}

/// The second text of the first pair whose first is `k`.
pub open spec fn lookup(v: Seq<(Seq<char>, Seq<char>)>, k: Seq<char>) -> Option<Seq<char>>
    decreases v.len(),
{
    if v.len() == 0 {
        None
    } else if v[0].0 == k {
        Some(v[0].1)
    } else {
        lookup(v.skip(1), k)
    }
}

pub fn look_up<'a>(v: &'a Vec<(String, String)>, k: &str) -> (r: Option<&'a str>)
    ensures
        opt_str(r) == lookup(pairs(v@), k@),
{
    let mut i: usize = 0;
    assert(pairs(v@).skip(0) =~= pairs(v@));
    while i < v.len()
        invariant
            i <= v@.len(),
            lookup(pairs(v@), k@) == lookup(pairs(v@).skip(i as int), k@),
        decreases v@.len() - i,
    {
        if str_is(v[i].0.as_str(), k) {
            return Some(v[i].1.as_str());
        }
        assert(pairs(v@).skip(i as int).skip(1) =~= pairs(v@).skip(i + 1));
        i += 1;
    }
    None
}

// ------------------------------------------------------------------ trimmed texts

/// A text without white space at its ends.
pub open spec fn is_trimmed(s: Seq<char>) -> bool {
    s.len() > 0 ==> !is_space(s[0]) && !is_space(s.last())
}

pub proof fn lemma_trimmed(s: Seq<char>)
    requires
        is_trimmed(s),
    ensures
        trim(s) == s,
{
}

pub proof fn lemma_trim_is_trimmed(s: Seq<char>)
    ensures
        is_trimmed(trim(s)),
{
    let t = trim_start(s);
    lemma_trim_start(s);
    lemma_trim_end(t);
    let u = trim_end(t);
    if u.len() > 0 {
        assert(u[0] == t[0]);
    }
}

// ------------------------------------------------------------------ what the searches find

/// A text is found in another exactly where it stands there for the first time, and is not found
/// exactly where it stands nowhere.
pub proof fn law_a_text_is_found_where_it_stands(s: Seq<char>, p: Seq<char>)
    ensures
        find_text(s, p) >= 0 <==> exists|i: int|
            0 <= i <= s.len() - p.len() && #[trigger] s.subrange(i, i + p.len()) == p,
        find_text(s, p) >= 0 ==> find_text(s, p) + p.len() <= s.len() && s.subrange(
            find_text(s, p),
            find_text(s, p) + p.len(),
        ) == p && forall|i: int|
            0 <= i < find_text(s, p) ==> #[trigger] s.subrange(i, i + p.len()) != p,
    decreases s.len(),
{
    if has_prefix(s, p) {
        assert(s.subrange(0, 0int + p.len()) =~= s.take(p.len() as int));
    } else if s.len() == 0 {
        if exists|i: int| 0 <= i <= s.len() - p.len() && #[trigger] s.subrange(i, i + p.len()) == p {
            assert(s.take(p.len() as int) =~= p);
        }
    } else {
        let r = s.skip(1);
        law_a_text_is_found_where_it_stands(r, p);
        assert forall|i: int| 0 < i <= s.len() - p.len() implies #[trigger] s.subrange(
            i,
            i + p.len(),
        ) == r.subrange(i - 1, i - 1 + p.len()) by {
            assert(s.subrange(i, i + p.len()) =~= r.subrange(i - 1, i - 1 + p.len()));
        }
        if p.len() <= s.len() {
            assert(s.subrange(0, 0int + p.len()) =~= s.take(p.len() as int));
        }
        let k = find_text(r, p);
        if k >= 0 {
            assert(s.subrange(k + 1, k + 1 + p.len()) == p);
        }
        if exists|i: int| 0 <= i <= s.len() - p.len() && #[trigger] s.subrange(i, i + p.len()) == p {
            let i = choose|i: int|
                0 <= i <= s.len() - p.len() && #[trigger] s.subrange(i, i + p.len()) == p;
            assert(i > 0);
            assert(r.subrange(i - 1, i - 1 + p.len()) == p);
        }
    }
}

/// White space is what it is in Unicode: of ASCII the blank, the tab and what ends a line or a page, and
/// nothing that can be seen.
pub proof fn law_nothing_visible_is_white_space(c: char)
    ensures
        (c as u32) < 0x80 ==> (is_space(c) <==> c as u32 == 0x20 || 9 <= c as u32 <= 13),
{
}

/// Trimming cuts white space off both ends and nothing else: what is left stands in the text between
/// what was cut off, and begins and ends with something that is not white space.
pub proof fn law_trimming_cuts_only_white_space(s: Seq<char>)
    ensures
        exists|k: int|
            0 <= k <= s.len() - trim(s).len() && #[trigger] s.subrange(k, k + trim(s).len()) == trim(
                s,
            ) && (forall|i: int| 0 <= i < k ==> is_space(#[trigger] s[i])) && (forall|i: int|
                k + trim(s).len() <= i < s.len() ==> is_space(#[trigger] s[i])),
        trim(s).len() > 0 ==> !is_space(trim(s)[0]) && !is_space(trim(s).last()),
{
    lemma_trim_is_trimmed(s);
    lemma_start_cut(s);
    let t = trim_start(s);
    lemma_end_cut(t);
    let k = s.len() - t.len();
    assert(s.subrange(k, k + trim(s).len()) =~= trim(s)) by {
        lemma_trim_end(t);
        assert forall|i: int| 0 <= i < trim(s).len() implies s[k + i] == trim(s)[i] by {
            assert(s.skip(k)[i] == s[k + i]);
        }
    }
    assert forall|i: int| k + trim(s).len() <= i < s.len() implies is_space(#[trigger] s[i]) by {
        assert(t[i - k] == s[i]);
    }
}

proof fn lemma_start_cut(s: Seq<char>)
    ensures
        trim_start(s).len() <= s.len(),
        s.skip(s.len() - trim_start(s).len()) == trim_start(s),
        forall|i: int| 0 <= i < s.len() - trim_start(s).len() ==> is_space(#[trigger] s[i]),
    decreases s.len(),
{
    if s.len() > 0 && is_space(s[0]) {
        let r = s.skip(1);
        lemma_start_cut(r);
        assert(s.skip(s.len() - trim_start(s).len()) =~= r.skip(r.len() - trim_start(r).len()));
        assert forall|i: int| 0 <= i < s.len() - trim_start(s).len() implies is_space(
            #[trigger] s[i],
        ) by {
            if i > 0 {
                assert(r[i - 1] == s[i]);
            }
        }
    } else {
        assert(s.skip(0) =~= s);
    }
}

proof fn lemma_end_cut(s: Seq<char>)
    ensures
        trim_end(s).len() <= s.len(),
        forall|i: int| trim_end(s).len() <= i < s.len() ==> is_space(#[trigger] s[i]),
    decreases s.len(),
{
    if s.len() > 0 && is_space(s.last()) {
        let d = s.drop_last();
        lemma_end_cut(d);
        assert forall|i: int| trim_end(s).len() <= i < s.len() implies is_space(#[trigger] s[i]) by {
            if i < d.len() {
                assert(d[i] == s[i]);
            }
        }
    }
}

/// Lowering a text lowers its letters of ASCII and leaves everything else where it is.
pub proof fn law_lowering_touches_only_letters(s: Seq<char>, i: int)
    requires
        0 <= i < s.len(),
    ensures
        lower(s).len() == s.len(),
        'A' <= s[i] <= 'Z' ==> lower(s)[i] as int == s[i] as int + 32,
        !('A' <= s[i] <= 'Z') ==> lower(s)[i] == s[i],
        upper(s).len() == s.len(),
        'a' <= s[i] <= 'z' ==> upper(s)[i] as int == s[i] as int - 32,
        !('a' <= s[i] <= 'z') ==> upper(s)[i] == s[i],
{
}

/// A number is read as its digits say, up to what is allowed, and nothing but digits is one.
pub proof fn law_a_number_is_its_digits(s: Seq<char>, d: char, max: nat)
    requires
        s.len() > 0,
        s[0] != '+',
    ensures
        '0' <= d <= '9' ==> value10(s.push(d)) == 10 * value10(s) + (d as int - '0' as int),
        number(s, max).is_some() ==> forall|i: int| 0 <= i < s.len() ==> '0' <= #[trigger] s[i] <= '9',
        number(s, max) matches Some(n) ==> n == value10(s) && n <= max,
        all_digits(s) && value10(s) <= max ==> number(s, max) == Some(value10(s)),
{
    assert(s.push(d).drop_last() =~= s);
}

/// A text stands somewhere in another.
pub open spec fn holds(all: Seq<char>, part: Seq<char>) -> bool {
    exists|k: int|
        0 <= k <= all.len() - part.len() && #[trigger] all.subrange(k, k + part.len()) == part
}

pub proof fn lemma_held(before: Seq<char>, part: Seq<char>, after: Seq<char>, inner: Seq<char>)
    requires
        holds(part, inner),
    ensures
        holds(before + part + after, inner),
{
    let k = choose|k: int|
        0 <= k <= part.len() - inner.len() && #[trigger] part.subrange(k, k + inner.len()) == inner;
    let all = before + part + after;
    let n = before.len() as int;
    assert(all.subrange(n + k, n + k + inner.len()) =~= part.subrange(k, k + inner.len()));
}

pub proof fn lemma_holds_itself(s: Seq<char>)
    ensures
        holds(s, s),
{
    assert(s.subrange(0, 0int + s.len()) =~= s);
}

// ------------------------------------------------------------------ what was put together comes apart

pub proof fn lemma_contains_concat(a: Seq<char>, b: Seq<char>, c: char)
    ensures
        (a + b).contains(c) == (a.contains(c) || b.contains(c)),
{
    if a.contains(c) {
        let i = choose|i: int| 0 <= i < a.len() && a[i] == c;
        assert((a + b)[i] == c);
    }
    if b.contains(c) {
        let i = choose|i: int| 0 <= i < b.len() && b[i] == c;
        assert((a + b)[a.len() + i] == c);
    }
    if (a + b).contains(c) {
        let i = choose|i: int| 0 <= i < (a + b).len() && (a + b)[i] == c;
        if i < a.len() {
            assert(a[i] == c);
        } else {
            assert(b[i - a.len()] == c);
        }
    }
}

pub proof fn lemma_split_once_at(a: Seq<char>, b: Seq<char>, c: char)
    requires
        !a.contains(c),
    ensures
        split_once(a + seq![c] + b, c) == Some((a, b)),
{
    let s = a + seq![c] + b;
    assert(s[a.len() as int] == c);
    assert forall|j: int| 0 <= j < a.len() implies s[j] != c by {
        assert(s[j] == a[j]);
        assert(a.contains(a[j]));
    }
    lemma_find_unique(s, c, a.len() as int);
    assert(s.take(a.len() as int) =~= a);
    assert(s.skip(a.len() as int + 1) =~= b);
}

pub proof fn lemma_split_once_none(s: Seq<char>, c: char)
    requires
        !s.contains(c),
    ensures
        split_once(s, c).is_none(),
        find(s, c) == s.len(),
{
    assert forall|j: int| 0 <= j < s.len() implies s[j] != c by {
        assert(s.contains(s[j]));
    }
    lemma_find_unique(s, c, s.len() as int);
}

pub proof fn lemma_last(s: Seq<char>, c: char)
    ensures
        -1 <= find_last(s, c) < s.len(),
        find_last(s, c) >= 0 ==> s[find_last(s, c)] == c,
        forall|j: int| find_last(s, c) < j < s.len() ==> s[j] != c,
    decreases s.len(),
{
    if s.len() > 0 && s.last() != c {
        lemma_last(s.drop_last(), c);
        assert forall|j: int| find_last(s, c) < j < s.len() implies s[j] != c by {
            if j < s.len() - 1 {
                assert(s.drop_last()[j] == s[j]);
            }
        }
    }
}

proof fn lemma_find_last(s: Seq<char>, c: char, k: int)
    requires
        -1 <= k < s.len(),
        k >= 0 ==> s[k] == c,
        forall|j: int| k < j < s.len() ==> s[j] != c,
    ensures
        find_last(s, c) == k,
    decreases s.len(),
{
    if s.len() > 0 && k < s.len() - 1 {
        assert(s.last() != c);
        assert forall|j: int| k < j < s.drop_last().len() implies s.drop_last()[j] != c by {
            assert(s.drop_last()[j] == s[j]);
        }
        lemma_find_last(s.drop_last(), c, k);
    }
}

pub proof fn lemma_rsplit_once_at(a: Seq<char>, b: Seq<char>, c: char)
    requires
        !b.contains(c),
    ensures
        rsplit_once(a + seq![c] + b, c) == Some((a, b)),
{
    let s = a + seq![c] + b;
    assert(s[a.len() as int] == c);
    assert forall|j: int| a.len() < j < s.len() implies s[j] != c by {
        assert(s[j] == b[j - a.len() - 1]);
        assert(b.contains(b[j - a.len() - 1]));
    }
    lemma_find_last(s, c, a.len() as int);
    assert(s.take(a.len() as int) =~= a);
    assert(s.skip(a.len() as int + 1) =~= b);
}

pub proof fn lemma_rsplit_once_none(s: Seq<char>, c: char)
    requires
        !s.contains(c),
    ensures
        rsplit_once(s, c).is_none(),
{
    assert forall|j: int| -1 < j < s.len() implies s[j] != c by {
        assert(s.contains(s[j]));
    }
    lemma_find_last(s, c, -1);
}

/// Parts that do not hold a character, joined with it, split at it again.
pub proof fn law_join_splits_back(parts: Seq<Seq<char>>, c: char)
    requires
        parts.len() > 0,
        forall|i: int| 0 <= i < parts.len() ==> !(#[trigger] parts[i]).contains(c),
    ensures
        split(join(parts, seq![c]), c) == parts,
    decreases parts.len(),
{
    if parts.len() == 1 {
        lemma_split_once_none(parts[0], c);
        assert(split(parts[0], c) =~= parts);
    } else {
        let first = parts[0];
        let rest = parts.skip(1);
        assert forall|i: int| 0 <= i < rest.len() implies !(#[trigger] rest[i]).contains(c) by {
            assert(rest[i] == parts[i + 1]);
        }
        law_join_splits_back(rest, c);
        assert(parts =~= seq![first] + rest);
        lemma_join_front(first, rest, seq![c]);
        lemma_split_once_at(first, join(rest, seq![c]), c);
        lemma_find(first + seq![c] + join(rest, seq![c]), c);
        assert(split(join(parts, seq![c]), c) =~= seq![first] + rest);
    }
}

} // verus!
