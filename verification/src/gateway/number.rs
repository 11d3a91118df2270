//! Numbers and digits as they are dialled.
use vstd::prelude::*;

use crate::config::Config;
use crate::state;
use crate::text;

verus! {

/// A character that can be dialled anywhere in a number.
pub open spec fn is_dialled(c: char) -> bool {
    text::is_digit(c) || c == '*' || c == '#'
}

/// The characters of a text that are meaningful for dialling; a plus only in front.
pub open spec fn dialled(s: Seq<char>) -> Seq<char>
    decreases s.len(),
{
    if s.len() == 0 {
        seq![]
    } else if is_dialled(s.last()) || (s.last() == '+' && s.len() == 1) {
        dialled(s.drop_last()).push(s.last())
    } else {
        dialled(s.drop_last())
    }
}

/// A number, reduced to what can be dialled.
pub open spec fn sanitized(s: Seq<char>) -> Seq<char> {
    dialled(text::trim(s))
}

/// Keep digits and the few characters that are meaningful for dialling.
pub fn sanitize_number(raw: &str) -> (r: String)
    ensures
        r@ == sanitized(raw@),
{
    let c = text::chars_of(raw);
    let t = text::trimmed(c.as_slice());
    let mut out = text::owned("");
    let mut i: usize = 0;
    proof {
        reveal_strlit("");
        assert(out@ =~= dialled(t@.take(0)));
    }
    while i < t.len()
        invariant
            i <= t@.len(),
            out@ == dialled(t@.take(i as int)),
        decreases t@.len() - i,
    {
        assert(t@.take(i + 1).drop_last() =~= t@.take(i as int));
        let x = t[i];
        if text::digit(x) || x == '*' || x == '#' || (x == '+' && i == 0) {
            out.push(x);
        }
        i += 1;
    }
    assert(t@.take(i as int) =~= t@);
    out
}

/// The number of a party on the mobile network, as it is written where the line lives.
pub open spec fn shown_number(cfg: Config, raw: Seq<char>) -> Seq<char> {
    state::national(
        sanitized(raw),
        text::opt_text(cfg.modem.country_code),
        cfg.modem.national_prefix@,
    )
}

pub fn show_number(cfg: &Config, raw: &str) -> (r: String)
    ensures
        r@ == shown_number(*cfg, raw@),
{
    state::local_number(cfg, sanitize_number(raw).as_str())
}

proof fn lemma_dialled(s: Seq<char>)
    ensures
        dialled(s).len() <= s.len(),
        forall|i: int|
            0 <= i < dialled(s).len() ==> is_dialled(#[trigger] dialled(s)[i]) || (i == 0 && dialled(
                s,
            )[i] == '+'),
    decreases s.len(),
{
    if s.len() > 0 {
        lemma_dialled(s.drop_last());
    }
}

proof fn lemma_dialled_is_kept(s: Seq<char>)
    requires
        forall|i: int|
            0 <= i < s.len() ==> is_dialled(#[trigger] s[i]) || (i == 0 && s[i] == '+'),
    ensures
        dialled(s) == s,
    decreases s.len(),
{
    if s.len() > 0 {
        assert(is_dialled(s[s.len() - 1]) || s.len() == 1);
        assert forall|i: int| 0 <= i < s.drop_last().len() implies is_dialled(
            #[trigger] s.drop_last()[i],
        ) || (i == 0 && s.drop_last()[i] == '+') by {
            assert(s.drop_last()[i] == s[i]);
        }
        lemma_dialled_is_kept(s.drop_last());
        assert(dialled(s) =~= s);
    } else {
        assert(dialled(s) =~= s);
    }
}

/// A number that was reduced once holds nothing but what can be dialled, so nothing of it can end a
/// line or begin a header.
pub proof fn law_a_number_holds_only_what_is_dialled(s: Seq<char>)
    ensures
        forall|i: int|
            0 <= i < sanitized(s).len() ==> is_dialled(#[trigger] sanitized(s)[i]) || (i == 0
                && sanitized(s)[i] == '+'),
        !sanitized(s).contains('\r'),
        !sanitized(s).contains('\n'),
        !sanitized(s).contains('<'),
        !sanitized(s).contains('@'),
{
    lemma_dialled(text::trim(s));
}

/// Reducing a number twice changes nothing more.
pub proof fn law_a_reduced_number_is_kept(s: Seq<char>)
    ensures
        sanitized(sanitized(s)) == sanitized(s),
{
    let r = sanitized(s);
    law_a_number_holds_only_what_is_dialled(s);
    if r.len() > 0 {
        assert(is_dialled(r[0]) || r[0] == '+');
        assert(is_dialled(r[r.len() - 1]) || r[r.len() - 1] == '+');
    }
    text::lemma_trimmed(r);
    lemma_dialled_is_kept(r);
}

proof fn lemma_dialled_is_a_plus_and_digits(t: Seq<char>)
    ensures
        dialled(t) == (if t.len() > 0 && t[0] == '+' {
            seq!['+']
        } else {
            seq![]
        }) + t.filter(|c: char| '0' <= c <= '9' || c == '*' || c == '#'),
    decreases t.len(),
{
    reveal(Seq::filter);
    if t.len() > 0 {
        let d = t.drop_last();
        lemma_dialled_is_a_plus_and_digits(d);
        if d.len() > 0 {
            assert(d[0] == t[0]);
        }
    }
}

proof fn lemma_trimming_cuts_no_digit(s: Seq<char>)
    ensures
        text::trim(s).filter(|c: char| '0' <= c <= '9' || c == '*' || c == '#') == s.filter(
            |c: char| '0' <= c <= '9' || c == '*' || c == '#',
        ),
        (text::trim(s).len() > 0 && text::trim(s)[0] == '+') <==> (exists|k: int|
            0 <= k < s.len() && #[trigger] s[k] == '+' && forall|j: int|
                0 <= j < k ==> text::is_space(#[trigger] s[j])),
    decreases s.len(),
{
    let p = |c: char| '0' <= c <= '9' || c == '*' || c == '#';
    if s.len() > 0 && text::is_space(s[0]) {
        let r = s.skip(1);
        lemma_trimming_cuts_no_digit(r);
        assert(s =~= seq![s[0]] + r);
        Seq::filter_distributes_over_add(seq![s[0]], r, p);
        assert(seq![s[0]].filter(p) =~= seq![]) by {
            reveal(Seq::filter);
            reveal_with_fuel(Seq::filter, 2);
            assert(seq![s[0]].drop_last() =~= seq![]);
        }
        if text::trim(s).len() > 0 && text::trim(s)[0] == '+' {
            let k = choose|k: int|
                0 <= k < r.len() && #[trigger] r[k] == '+' && forall|j: int|
                    0 <= j < k ==> text::is_space(#[trigger] r[j]);
            assert(s[k + 1] == '+');
            assert forall|j: int| 0 <= j < k + 1 implies text::is_space(#[trigger] s[j]) by {
                if j > 0 {
                    assert(r[j - 1] == s[j]);
                }
            }
        }
        if exists|k: int|
            0 <= k < s.len() && #[trigger] s[k] == '+' && forall|j: int|
                0 <= j < k ==> text::is_space(#[trigger] s[j]) {
            let k = choose|k: int|
                0 <= k < s.len() && #[trigger] s[k] == '+' && forall|j: int|
                    0 <= j < k ==> text::is_space(#[trigger] s[j]);
            assert(r[k - 1] == '+');
            assert forall|j: int| 0 <= j < k - 1 implies text::is_space(#[trigger] r[j]) by {
                assert(s[j + 1] == r[j]);
            }
        }
    } else {
        lemma_the_end_holds_no_digit(s);
        if s.len() > 0 {
            lemma_the_first_is_kept(s);
        } else {
            assert(text::trim(s) =~= s);
        }
    }
}

proof fn lemma_the_end_holds_no_digit(s: Seq<char>)
    ensures
        text::trim_end(s).filter(|c: char| '0' <= c <= '9' || c == '*' || c == '#') == s.filter(
            |c: char| '0' <= c <= '9' || c == '*' || c == '#',
        ),
    decreases s.len(),
{
    reveal(Seq::filter);
    if s.len() > 0 && text::is_space(s.last()) {
        lemma_the_end_holds_no_digit(s.drop_last());
    }
}

proof fn lemma_the_first_is_kept(s: Seq<char>)
    requires
        s.len() > 0,
        !text::is_space(s[0]),
    ensures
        text::trim_end(s).len() > 0,
        text::trim_end(s)[0] == s[0],
    decreases s.len(),
{
    if text::is_space(s.last()) {
        lemma_the_first_is_kept(s.drop_last());
    }
}

/// What is dialled is the digits, stars and hashes of a text, all of them and in order, after a plus
/// where the text begins with one. White space in front of that plus does not count.
pub proof fn law_what_can_be_dialled_is_dialled(s: Seq<char>)
    ensures
        ({
            let digits = s.filter(|c: char| '0' <= c <= '9' || c == '*' || c == '#');
            let plus = exists|k: int|
                0 <= k < s.len() && #[trigger] s[k] == '+' && forall|j: int|
                    0 <= j < k ==> text::is_space(#[trigger] s[j]);
            &&& plus ==> sanitized(s) == seq!['+'] + digits
            &&& !plus ==> sanitized(s) == digits
        }),
        s.len() > 0 && s[0] == '+' ==> sanitized(s) == seq!['+'] + s.filter(
            |c: char| '0' <= c <= '9' || c == '*' || c == '#',
        ),
        !s.contains('+') ==> sanitized(s) == s.filter(
            |c: char| '0' <= c <= '9' || c == '*' || c == '#',
        ),
{
    lemma_trimming_cuts_no_digit(s);
    lemma_dialled_is_a_plus_and_digits(text::trim(s));
    assert(s.len() > 0 && s[0] == '+' ==> forall|j: int| 0 <= j < 0 ==> text::is_space(s[j]));
}

/// A text gives no number exactly where it holds nothing that can be dialled.
pub proof fn law_a_text_with_a_digit_is_a_number(s: Seq<char>)
    ensures
        sanitized(s).len() == 0 ==> forall|i: int|
            0 <= i < s.len() ==> !('0' <= #[trigger] s[i] <= '9' || s[i] == '*' || s[i] == '#'),
        (exists|i: int|
            0 <= i < s.len() && ('0' <= #[trigger] s[i] <= '9' || s[i] == '*' || s[i] == '#'))
            ==> sanitized(s).len() > 0,
        s.len() > 0 && s[0] == '+' ==> sanitized(s).len() > 0,
{
    law_what_can_be_dialled_is_dialled(s);
    let p = |c: char| '0' <= c <= '9' || c == '*' || c == '#';
    assert forall|i: int| 0 <= i < s.len() && p(#[trigger] s[i]) implies s.filter(p).len() > 0 by {
        s.lemma_filter_contains(p, i);
    }
}

/// A number that is nothing but digits, with or without a plus in front, is dialled as it stands.
pub proof fn lemma_a_number_is_kept(s: Seq<char>)
    requires
        s.len() > 0,
        forall|i: int|
            0 <= i < s.len() ==> '0' <= #[trigger] s[i] <= '9' || (i == 0 && s[i] == '+'),
    ensures
        sanitized(s) == s,
{
    assert('0' <= s[0] <= '9' || s[0] == '+');
    assert('0' <= s[s.len() - 1] <= '9' || s[s.len() - 1] == '+');
    text::lemma_trimmed(s);
    lemma_dialled_is_kept(s);
}

// ------------------------------------------------------------------ digits in INFO

/// The value of the first line that sets the signal.
pub open spec fn signal_of(lines: Seq<Seq<char>>) -> Seq<char>
    decreases lines.len(),
{
    if lines.len() == 0 {
        seq![]
    } else {
        match text::split_once(lines[0], '=') {
            Some((k, v)) => if text::eq_nocase(text::trim(k), "signal"@) {
                text::trim(v)
            } else {
                signal_of(lines.skip(1))
            },
            None => signal_of(lines.skip(1)),
        }
    }
}

/// The digits that a request carries, by its media type.
pub open spec fn info_digits(content_type: Seq<char>, body: Seq<char>) -> Option<Seq<char>> {
    let ct = text::lower(content_type);
    if text::find_text(ct, "dtmf-relay"@) >= 0 {
        Some(signal_of(text::lines(body)))
    } else if text::find_text(ct, "dtmf"@) >= 0 {
        Some(text::trim(body))
    } else {
        None
    }
}

/// application/dtmf-relay ("Signal=5\r\nDuration=250") and application/dtmf ("5").
pub fn parse_dtmf_info(content_type: &str, body: &str) -> (r: Option<String>)
    ensures
        text::opt_text(r) == info_digits(content_type@, body@),
{
    let t = text::chars_of(content_type);
    let ct = text::lowercase(t.as_slice());
    let b = text::chars_of(body);
    if text::contains_text(ct.as_slice(), "dtmf-relay") {
        let lines = text::lines_of(b.as_slice());
        let ghost all = text::slices(lines@);
        let mut i: usize = 0;
        assert(all.skip(0) =~= all);
        while i < lines.len()
            invariant
                i <= lines@.len(),
                all == text::slices(lines@),
                all == text::lines(body@),
                ct@ == text::lower(content_type@),
                text::find_text(ct@, "dtmf-relay"@) >= 0,
                signal_of(all) == signal_of(all.skip(i as int)),
            decreases lines@.len() - i,
        {
            assert(all.skip(i as int)[0] == lines@[i as int]@);
            assert(all.skip(i as int).skip(1) =~= all.skip(i + 1));
            if let Some((k, v)) = text::cut(lines[i], '=') {
                if text::is_nocase(text::trimmed(k), "signal") {
                    return Some(text::string_of(text::trimmed(v)));
                }
            }
            i += 1;
        }
        proof {
            reveal_strlit("");
            assert(""@ =~= seq![]);
        }
        return Some(text::owned(""));
    }
    if text::contains_text(ct.as_slice(), "dtmf") {
        return Some(text::string_of(text::trimmed(b.as_slice())));
    }
    None
}

/// The digits of an INFO are what its first line gives as the signal, where it says that it relays a
/// digit in that way, and its whole body where it is of the plain kind; white space around them does
/// not count. Other kinds carry none.
pub proof fn law_the_signal_of_an_info_is_read(
    content_type: Seq<char>,
    body: Seq<char>,
    digits: Seq<char>,
    rest: Seq<char>,
)
    requires
        !digits.contains('\n'),
    ensures
        ({
            let kind = text::lower(content_type);
            let relay = exists|i: int|
                0 <= i <= kind.len() - 10 && #[trigger] kind.subrange(i, i + 10) == "dtmf-relay"@;
            let plain = exists|i: int|
                0 <= i <= kind.len() - 4 && #[trigger] kind.subrange(i, i + 4) == "dtmf"@;
            &&& relay && body == "Signal="@ + digits + "\r\n"@ + rest ==> info_digits(
                content_type,
                body,
            ) == Some(text::trim(digits))
            &&& relay && body == "Signal="@ + digits + "\n"@ + rest && !digits.contains('\r')
                ==> info_digits(content_type, body) == Some(text::trim(digits))
            &&& !relay && plain ==> info_digits(content_type, body) == Some(text::trim(body))
            &&& !relay && !plain ==> info_digits(content_type, body).is_none()
        }),
{
    let kind = text::lower(content_type);
    reveal_strlit("dtmf-relay");
    reveal_strlit("dtmf");
    text::law_a_text_is_found_where_it_stands(kind, "dtmf-relay"@);
    text::law_a_text_is_found_where_it_stands(kind, "dtmf"@);
    reveal_strlit("\r\n");
    reveal_strlit("\n");
    if body == "Signal="@ + digits + "\r\n"@ + rest {
        lemma_signal_line(body, digits, seq!['\r'], rest);
    }
    if body == "Signal="@ + digits + "\n"@ + rest && !digits.contains('\r') {
        assert(digits.len() > 0 ==> digits.contains(digits.last()));
        lemma_signal_line(body, digits, seq![], rest);
    }
}

proof fn lemma_signal_line(
    body: Seq<char>,
    digits: Seq<char>,
    ret: Seq<char>,
    rest: Seq<char>,
)
    requires
        !digits.contains('\n'),
        ret == seq!['\r'] || (ret.len() == 0 && !(digits.len() > 0 && digits.last() == '\r')),
        body =~= "Signal="@ + digits + ret + seq!['\n'] + rest,
    ensures
        signal_of(text::lines(body)) == text::trim(digits),
{
    reveal_strlit("Signal=");
    reveal_strlit("Signal");
    reveal_strlit("signal");
    let line = "Signal="@ + digits;
    let n = (line + ret).len() as int;
    assert forall|j: int| 0 <= j < n implies body[j] != '\n' by {
        if 7 <= j < 7 + digits.len() {
            assert(body[j] == digits[j - 7]);
            assert(digits.contains(digits[j - 7]));
        }
    }
    text::lemma_find_unique(body, '\n', n);
    assert(body.take(n) =~= line + ret);
    assert(text::without_return(body.take(n)) =~= line);
    let lines = text::lines(body);
    assert(lines[0] == line);
    assert(line =~= "Signal"@ + seq!['='] + digits);
    assert(!"Signal"@.contains('='));
    text::lemma_split_once_at("Signal"@, digits, '=');
    text::lemma_trimmed("Signal"@);
    assert(text::lower("Signal"@) =~= "signal"@);
    assert(text::lower("signal"@) =~= "signal"@);
}

} // verus!
