//! Numbers and links as the rest of the gateway shares them.
use vstd::prelude::*;

use crate::config::Config;
use crate::text;

verus! {

/// The text without one leading plus.
pub open spec fn unplussed(s: Seq<char>) -> Seq<char> {
    if s.len() > 0 && s[0] == '+' {
        s.skip(1)
    } else {
        s
    }
}

fn without_plus(s: &[char]) -> (r: &[char])
    ensures
        r@ == unplussed(s@),
{
    if s.len() > 0 && s[0] == '+' {
        text::skip(s, 1)
    } else {
        s
    }
}

/// The country code as it is compared: trimmed, without a plus, empty where there is none.
pub open spec fn bare_code(code: Option<Seq<char>>) -> Seq<char> {
    match code {
        Some(c) => unplussed(text::trim(c)),
        None => seq![],
    }
}

/// A number the way people in its country write it: the country code, with something behind it, is
/// swapped for the trunk prefix; anything else is left as it came.
pub open spec fn national(number: Seq<char>, code: Option<Seq<char>>, prefix: Seq<char>) -> Seq<
    char,
> {
    let n = text::trim(number);
    let cc = bare_code(code);
    let digits = unplussed(n);
    if cc.len() > 0 && text::has_prefix(digits, cc) && digits.len() > cc.len() {
        prefix + digits.skip(cc.len() as int)
    } else {
        n
    }
}

/// Render a number the way people in that country write it.
///
/// SIMs report the own number in international format (`821012345678`), which is not what a Korean
/// subscriber recognises as their number. With the country code known, the international prefix is
/// swapped for the national trunk prefix; without it the number is left exactly as it came.
pub fn to_national(number: &str, country_code: Option<&str>, national_prefix: &str) -> (r: String)
    ensures
        r@ == national(number@, text::opt_str(country_code), national_prefix@),
{
    let c = text::chars_of(number);
    let n = text::trimmed(c.as_slice());
    let code = match country_code {
        Some(cc) => text::chars_of(cc),
        None => Vec::new(),
    };
    let cc = without_plus(text::trimmed(code.as_slice()));
    proof {
        if country_code.is_none() {
            assert(text::trim(code@) =~= Seq::<char>::empty());
            assert(cc@ =~= bare_code(text::opt_str(country_code)));
        }
    }
    if cc.len() == 0 {
        return text::string_of(n);
    }
    let digits = without_plus(n);
    // The code alone, or a number that merely starts with those digits and has no subscriber part,
    // is not an international form.
    if digits.len() > cc.len() && text::same(text::take(digits, cc.len()), cc) {
        let mut out = text::owned(national_prefix);
        let rest = text::string_of(text::skip(digits, cc.len()));
        out.append(rest.as_str());
        out
    } else {
        text::string_of(n)
    }
}

/// A number as it is written where this line lives.
///
/// Everything arriving from the mobile side goes through here, so a SIP client sees `01012345678`
/// rather than the international form the network uses, and can call or reply straight back.
pub fn local_number(cfg: &Config, number: &str) -> (r: String)
    ensures
        r@ == national(
            number@,
            text::opt_text(cfg.modem.country_code),
            cfg.modem.national_prefix@,
        ),
{
    let code = match &cfg.modem.country_code {
        Some(c) => Some(c.as_str()),
        None => None,
    };
    to_national(number, code, cfg.modem.national_prefix.as_str())
}

pub open spec fn nonblank(v: Option<Seq<char>>) -> Option<Seq<char>> {
    match v {
        Some(n) => if text::trim(n).len() > 0 {
            Some(n)
        } else {
            None
        },
        None => None,
    }
}

fn not_blank(v: Option<&str>) -> (r: Option<&str>)
    ensures
        text::opt_str(r) == nonblank(text::opt_str(v)),
{
    match v {
        Some(n) => {
            let c = text::chars_of(n);
            if text::trimmed(c.as_slice()).len() > 0 {
                Some(n)
            } else {
                None
            }
        },
        None => None,
    }
}

/// The number this line answers on, as configured and otherwise as reported by the SIM, written the
/// way the line's country writes it.
pub fn own_number(cfg: &Config, sim_number: Option<&str>) -> (r: Option<String>)
    ensures
        text::opt_text(r) == match (
            nonblank(text::opt_text(cfg.modem.own_number)),
            nonblank(text::opt_str(sim_number)),
        ) {
            (Some(n), _) => Some(
                national(n, text::opt_text(cfg.modem.country_code), cfg.modem.national_prefix@),
            ),
            (None, Some(n)) => Some(
                national(n, text::opt_text(cfg.modem.country_code), cfg.modem.national_prefix@),
            ),
            (None, None) => None,
        },
{
    let configured = match &cfg.modem.own_number {
        Some(n) => Some(n.as_str()),
        None => None,
    };
    // An explicit setting is an override; the SIM is the fallback.
    match not_blank(configured) {
        Some(n) => Some(local_number(cfg, n)),
        None => match not_blank(sim_number) {
            Some(n) => Some(local_number(cfg, n)),
            None => None,
        },
    }
}

/// Base URL used when handing attachment links to SIP peers.
pub fn http_base_url(cfg: &Config) -> (r: String)
    ensures
        r@ == match text::opt_text(cfg.http.base_url) {
            Some(u) => u,
            None => "http://"@ + cfg.http.bind@,
        },
{
    match &cfg.http.base_url {
        Some(u) => u.clone(),
        None => {
            let mut out = text::owned("http://");
            out.append(cfg.http.bind.as_str());
            out
        },
    }
}

// ------------------------------------------------------------------ laws

/// A number already written locally is left alone: writing a number the national way twice is
/// writing it once, where the trunk prefix is not empty and does not start like the country code or
/// with a plus.
pub proof fn law_national_is_idempotent(number: Seq<char>, code: Option<Seq<char>>, prefix: Seq<
    char,
>)
    requires
        prefix.len() > 0,
        text::is_trimmed(prefix),
        prefix[0] != '+',
        bare_code(code).len() > 0 ==> bare_code(code)[0] != prefix[0],
    ensures
        national(national(number, code, prefix), code, prefix) == national(number, code, prefix),
{
    let n = text::trim(number);
    let cc = bare_code(code);
    let digits = unplussed(n);
    text::lemma_trim_is_trimmed(number);
    if cc.len() > 0 && text::has_prefix(digits, cc) && digits.len() > cc.len() {
        let once = prefix + digits.skip(cc.len() as int);
        assert(once[0] == prefix[0]);
        assert(once.last() == digits.last());
        assert(digits.last() == n.last());
        text::lemma_trimmed(once);
        assert(unplussed(once) == once);
        if text::has_prefix(once, cc) {
            assert(once.take(cc.len() as int)[0] == cc[0]);
        }
    } else {
        text::lemma_trimmed(n);
    }
}

/// A plus in front of an international number, or in front of the country code, makes no
/// difference.
pub proof fn law_the_plus_makes_no_difference(number: Seq<char>, code: Seq<char>, prefix: Seq<char>)
    requires
        text::is_trimmed(number),
        text::is_trimmed(code),
        code.len() > 0,
        code[0] != '+',
        number.len() > code.len(),
        text::has_prefix(number, code),
    ensures
        national(seq!['+'] + number, Some(code), prefix) == national(number, Some(code), prefix),
        national(number, Some(seq!['+'] + code), prefix) == national(number, Some(code), prefix),
        national(number, Some(code), prefix) == prefix + number.skip(code.len() as int),
{
    let p = seq!['+'] + number;
    let c = seq!['+'] + code;
    assert(number.take(code.len() as int)[0] == code[0]);
    text::lemma_trimmed(number);
    text::lemma_trimmed(code);
    text::lemma_trimmed(p);
    text::lemma_trimmed(c);
    assert(p.skip(1) =~= number);
    assert(c.skip(1) =~= code);
}

/// Without a country code nothing changes but the white space around the number.
pub proof fn law_without_a_code_nothing_changes(number: Seq<char>, prefix: Seq<char>)
    ensures
        national(number, None, prefix) == text::trim(number),
{
}

/// A number that does not begin with the code of the country, or that is nothing more than it, is left
/// as it is.
pub proof fn law_a_foreign_number_is_kept(number: Seq<char>, code: Seq<char>, prefix: Seq<char>)
    requires
        text::is_trimmed(number),
        text::is_trimmed(code),
        code.len() > 0,
        code[0] != '+',
        ({
            let digits = if number.len() > 0 && number[0] == '+' {
                number.skip(1)
            } else {
                number
            };
            digits.len() <= code.len() || digits.take(code.len() as int) != code
        }),
    ensures
        national(number, Some(code), prefix) == number,
{
    text::lemma_trimmed(number);
    text::lemma_trimmed(code);
}

/// A number counts as given exactly where something of it is visible, and then it is taken as it is.
pub proof fn law_a_visible_number_is_given(n: Seq<char>)
    ensures
        (exists|i: int| 0 <= i < n.len() && !text::is_space(#[trigger] n[i])) ==> nonblank(Some(n))
            == Some(n),
        (forall|i: int| 0 <= i < n.len() ==> text::is_space(#[trigger] n[i])) ==> nonblank(
            Some(n),
        ).is_none(),
        nonblank(None).is_none(),
{
    text::law_trimming_cuts_only_white_space(n);
    let t = text::trim(n);
    let k = choose|k: int|
        0 <= k <= n.len() - t.len() && #[trigger] n.subrange(k, k + t.len()) == t && (forall|i: int|
            0 <= i < k ==> text::is_space(#[trigger] n[i])) && (forall|i: int|
            k + t.len() <= i < n.len() ==> text::is_space(#[trigger] n[i]));
    if t.len() > 0 {
        assert(n.subrange(k, k + t.len())[0] == n[k]);
    }
}

} // verus!
