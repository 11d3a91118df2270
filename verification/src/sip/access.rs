//! Who is let in: the networks a source may stand in, and what a password is shown by.
use vstd::arithmetic::power2::{lemma_pow2_pos, lemma_pow2_unfold, pow2};
use vstd::prelude::*;
use vstd::utf8::encode_utf8;

use super::auth;
use super::sdp;
use super::sdp::Direction;
use super::txn;
use crate::net;
use crate::net::IpAddr;
use crate::text;

verus! {

// ------------------------------------------------------------------ networks

/// An address stands in a network exactly where both are of one family, the prefix is no longer than an
/// address of it, and the two agree above the bits that the prefix leaves free.
pub proof fn law_a_network_is_its_leading_bits(n: IpAddr, prefix: nat, ip: IpAddr)
    ensures
        txn::in_network(n, prefix, ip) <==> match (n, ip) {
            (IpAddr::V4(a), IpAddr::V4(b)) => prefix <= 32 && a as nat / pow2((32 - prefix) as nat)
                == b as nat / pow2((32 - prefix) as nat),
            (IpAddr::V6(a), IpAddr::V6(b)) => prefix <= 128 && a as nat / pow2(
                (128 - prefix) as nat,
            ) == b as nat / pow2((128 - prefix) as nat),
            _ => false,
        },
{
    match (n, ip) {
        (IpAddr::V4(a), IpAddr::V4(b)) => {
            if prefix <= 32 {
                lemma_leading(a as nat, (32 - prefix) as nat);
                lemma_leading(b as nat, (32 - prefix) as nat);
            }
        },
        (IpAddr::V6(a), IpAddr::V6(b)) => {
            if prefix <= 128 {
                lemma_leading(a as nat, (128 - prefix) as nat);
                lemma_leading(b as nat, (128 - prefix) as nat);
            }
        },
        _ => {},
    }
}

proof fn lemma_leading(n: nat, k: nat)
    ensures
        txn::leading_bits(n, k) == n / pow2(k),
    decreases k,
{
    if k == 0 {
        vstd::arithmetic::power2::lemma2_to64();
    } else {
        lemma_leading(n / 2, (k - 1) as nat);
        lemma_pow2_unfold(k);
        lemma_pow2_pos((k - 1) as nat);
        vstd::arithmetic::div_mod::lemma_div_denominator(n as int, 2, pow2((k - 1) as nat) as int);
    }
}

/// A rule that is an address admits that address alone, and one that is an address, a slash and a prefix
/// the network of it.
pub proof fn law_a_rule_is_an_address_or_a_network(n: IpAddr, prefix: nat, ip: IpAddr)
    requires
        prefix <= 0xffff_ffff,
    ensures
        txn::rule_admits(net::ip_text(n), ip) <==> n == ip,
        txn::rule_admits(net::ip_text(n) + "/"@ + text::dec(prefix), ip) <==> txn::in_network(
            n,
            prefix,
            ip,
        ),
{
    reveal_strlit("/");
    let a = net::ip_text(n);
    let d = text::dec(prefix);
    let r = a + "/"@ + d;
    net::lemma_address_plain(n, '/');
    net::lemma_address_plain(n, ' ');
    assert(text::is_trimmed(a)) by {
        if text::is_space(a[0]) {
            net::lemma_address_plain(n, a[0]);
            assert(a.contains(a[0]));
        }
        if text::is_space(a.last()) {
            net::lemma_address_plain(n, a.last());
            assert(a.contains(a.last()));
        }
    }
    text::lemma_trimmed(a);
    text::lemma_split_once_none(a, '/');
    net::law_an_address_reads_back(n);
    text::lemma_dec_reads_back(prefix);
    assert(text::is_digit(d[0]) && text::is_digit(d.last()));
    assert(text::is_trimmed(d));
    text::lemma_trimmed(d);
    assert(r[0] == a[0] && r.last() == d.last());
    assert(text::is_trimmed(r));
    text::lemma_trimmed(r);
    assert("/"@ =~= seq!['/']);
    text::lemma_split_once_at(a, d, '/');
    text::law_decimal_round_trip(prefix, 0xffff_ffff);
}

/// A source is let in where a rule admits it or there is no rule, and nowhere else.
pub proof fn law_a_source_is_let_in_by_a_rule(rules: Seq<Seq<char>>, ip: IpAddr, i: int)
    ensures
        rules.len() == 0 ==> txn::admitted(rules, ip),
        0 <= i < rules.len() && txn::rule_admits(rules[i], ip) ==> txn::admitted(rules, ip),
        rules.len() > 0 && (forall|j: int|
            0 <= j < rules.len() ==> !txn::rule_admits(#[trigger] rules[j], ip)) ==> !txn::admitted(
            rules,
            ip,
        ),
{
}

// ------------------------------------------------------------------ digests

/// A byte is written as two hexadecimal digits, the high one first, in lower case, and bytes one after
/// the other.
pub proof fn law_bytes_are_written_in_hexadecimal(b: Seq<u8>, i: int)
    requires
        0 <= i < b.len(),
    ensures
        text::hex_bytes(b).len() == 2 * b.len(),
        text::hex_bytes(b)[2 * i] == "0123456789abcdef"@[b[i] as int / 16],
        text::hex_bytes(b)[2 * i + 1] == "0123456789abcdef"@[b[i] as int % 16],
    decreases b.len(),
{
    reveal_strlit("0123456789abcdef");
    if b.len() == 1 {
        assert(b.drop_last().len() == 0);
        assert(text::hex_bytes(b.drop_last()).len() == 0);
    } else if i < b.len() - 1 {
        law_bytes_are_written_in_hexadecimal(b.drop_last(), i);
    } else {
        law_bytes_are_written_in_hexadecimal(b.drop_last(), 0);
    }
}

/// Lower-case hexadecimal of the MD5 digest of a text.
pub open spec fn digest(t: Seq<char>) -> Seq<char> {
    text::hex_bytes(auth::md5_of(encode_utf8(t)))
}

/// Without a quality of protection a password is shown by the digest of three texts: the digest of
/// who, where and the password, the nonce, and the digest of method and target (RFC 2617).
pub proof fn law_a_password_is_shown_by_its_digest(
    user: Seq<char>,
    password: Seq<char>,
    realm: Seq<char>,
    nonce: Seq<char>,
    method: Seq<char>,
    uri: Seq<char>,
    cnonce: Option<Seq<char>>,
    nc: Option<Seq<char>>,
    algorithm: Option<Seq<char>>,
    body: Seq<u8>,
)
    requires
        algorithm matches Some(a) ==> text::lower(a) != text::lower("MD5-sess"@),
    ensures
        auth::response_of(
            user,
            password,
            realm,
            nonce,
            method,
            uri,
            None,
            cnonce,
            nc,
            algorithm,
            body,
        ) == digest(
            digest(user + ":"@ + realm + ":"@ + password) + ":"@ + nonce + ":"@ + digest(
                method + ":"@ + uri,
            ),
        ),
{
}

/// With a quality of protection the count, the client nonce and the quality come in between; where the
/// integrity of the body is protected, its digest is added to method and target; and for a session
/// algorithm both nonces are bound to the password first (RFC 2617).
pub proof fn law_a_quality_of_protection_is_shown(
    user: Seq<char>,
    password: Seq<char>,
    realm: Seq<char>,
    nonce: Seq<char>,
    method: Seq<char>,
    uri: Seq<char>,
    qop: Seq<char>,
    cnonce: Seq<char>,
    nc: Seq<char>,
    algorithm: Option<Seq<char>>,
    body: Seq<u8>,
    session: bool,
    integrity: bool,
)
    requires
        qop.len() > 0,
        session <==> (algorithm matches Some(a) && text::lower(a) == text::lower("MD5-sess"@)),
        integrity <==> text::lower(qop) == text::lower("auth-int"@),
    ensures
        ({
            let who = digest(user + ":"@ + realm + ":"@ + password);
            let secret = if session {
                digest(who + ":"@ + nonce + ":"@ + cnonce)
            } else {
                who
            };
            let subject = if integrity {
                digest(method + ":"@ + uri + ":"@ + text::hex_bytes(auth::md5_of(body)))
            } else {
                digest(method + ":"@ + uri)
            };
            auth::response_of(
                user,
                password,
                realm,
                nonce,
                method,
                uri,
                Some(qop),
                Some(cnonce),
                Some(nc),
                algorithm,
                body,
            ) == digest(
                secret + ":"@ + nonce + ":"@ + nc + ":"@ + cnonce + ":"@ + qop + ":"@ + subject,
            )
        }),
{
}

/// Credentials are right exactly where what they show is the digest of the password, method, body and
/// their own parts.
pub proof fn law_right_credentials_show_the_digest(
    c: auth::Shown,
    password: Seq<char>,
    method: Seq<char>,
    body: Seq<u8>,
)
    ensures
        auth::verifies(c, password, method, body) <==> c.response == auth::response_of(
            c.username,
            password,
            c.realm,
            c.nonce,
            method,
            c.uri,
            c.qop,
            c.cnonce,
            c.nc,
            c.algorithm,
            body,
        ),
{
}

/// An answer repeats what the challenge asks under, names who answers and what for, and shows the
/// digest of all of it. It counts and adds a client nonce exactly where it takes up a quality of
/// protection.
pub proof fn law_an_answer_is_to_its_challenge(
    c: auth::Posed,
    user: Seq<char>,
    password: Seq<char>,
    method: Seq<char>,
    uri: Seq<char>,
    body: Seq<u8>,
    count: nat,
    cnonce: Seq<char>,
)
    ensures
        ({
            let a = auth::answered(c, user, password, method, uri, body, count, cnonce);
            &&& a.username == user && a.uri == uri
            &&& a.realm == c.realm && a.nonce == c.nonce && a.opaque == c.opaque
            &&& a.algorithm == c.algorithm
            &&& c.qop.is_none() ==> a.qop.is_none()
            &&& a.qop.is_none() ==> a.cnonce.is_none() && a.nc.is_none()
            &&& a.qop.is_some() ==> a.cnonce == Some(cnonce) && a.nc == Some(
                text::hex_fixed(count, 8),
            )
            &&& a.response == auth::response_of(
                user,
                password,
                c.realm,
                c.nonce,
                method,
                uri,
                a.qop,
                a.cnonce,
                a.nc,
                c.algorithm,
                body,
            )
        }),
{
}

/// The quality of protection that is taken up is the first of those offered that is plain
/// authentication, and none is where none is.
pub proof fn law_plain_authentication_is_taken_up(q: Seq<char>, i: int)
    requires
        0 <= i < text::split(q, ',').len(),
    ensures
        text::lower(text::trim(text::split(q, ',')[i])) == "auth"@ && (forall|j: int|
            0 <= j < i ==> text::lower(text::trim(#[trigger] text::split(q, ',')[j])) != "auth"@)
            ==> auth::chosen_qop(Some(q)) == Some(text::trim(text::split(q, ',')[i])),
        (forall|j: int|
            0 <= j < text::split(q, ',').len() ==> text::lower(
                text::trim(#[trigger] text::split(q, ',')[j]),
            ) != "auth"@) ==> auth::chosen_qop(Some(q)).is_none(),
{
    reveal_strlit("auth");
    assert(text::lower("auth"@) =~= "auth"@);
    lemma_plain(text::split(q, ','), i);
}

proof fn lemma_plain(parts: Seq<Seq<char>>, i: int)
    requires
        0 <= i <= parts.len(),
        text::lower("auth"@) == "auth"@,
    ensures
        i < parts.len() && text::lower(text::trim(parts[i])) == "auth"@ && (forall|j: int|
            0 <= j < i ==> text::lower(text::trim(#[trigger] parts[j])) != "auth"@)
            ==> auth::plain_qop(parts) == Some(text::trim(parts[i])),
        (forall|j: int|
            0 <= j < parts.len() ==> text::lower(text::trim(#[trigger] parts[j])) != "auth"@)
            ==> auth::plain_qop(parts).is_none(),
    decreases parts.len(),
{
    if parts.len() > 0 {
        let rest = parts.skip(1);
        assert forall|j: int| 0 <= j < rest.len() implies rest[j] == #[trigger] parts[j + 1] by {}
        if text::lower(text::trim(parts[0])) != "auth"@ && i > 0 {
            lemma_plain(rest, i - 1);
            assert((forall|j: int|
                0 <= j < i ==> text::lower(text::trim(#[trigger] parts[j])) != "auth"@) ==> (forall|
                j: int,
            |
                0 <= j < i - 1 ==> text::lower(text::trim(#[trigger] rest[j])) != "auth"@));
        } else if text::lower(text::trim(parts[0])) != "auth"@ {
            lemma_plain(rest, 0);
        }
    }
}

/// Of several challenges the first is answered that is under MD5 or its session form or names no
/// algorithm.
pub proof fn law_the_first_challenge_under_md5_is_answered(values: Seq<Seq<char>>, i: int)
    requires
        0 <= i < values.len(),
        auth::challenge_of(values[i]) matches Some(c) && under_md5(c),
        forall|j: int|
            0 <= j < i ==> !(auth::challenge_of(#[trigger] values[j]) matches Some(c) && under_md5(
                c,
            )),
    ensures
        auth::first_supported(values) == auth::challenge_of(values[i]),
    decreases i,
{
    lemma_md5_names();
    if i > 0 {
        let rest = values.skip(1);
        assert(rest[i - 1] == values[i]);
        assert forall|j: int| 0 <= j < i - 1 implies !(auth::challenge_of(
            #[trigger] rest[j],
        ) matches Some(c) && under_md5(c)) by {
            assert(rest[j] == values[j + 1]);
        }
        assert(!(auth::challenge_of(values[0]) matches Some(c) && under_md5(c)));
        law_the_first_challenge_under_md5_is_answered(rest, i - 1);
    }
}

/// The challenge names MD5, its session form, or no algorithm.
pub open spec fn under_md5(c: auth::Posed) -> bool {
    c.algorithm matches Some(a) ==> text::lower(a) == "md5"@ || text::lower(a) == "md5-sess"@
}

proof fn lemma_md5_names()
    ensures
        text::lower("MD5"@) == "md5"@,
        text::lower("MD5-sess"@) == "md5-sess"@,
{
    reveal_strlit("MD5");
    reveal_strlit("md5");
    reveal_strlit("MD5-sess");
    reveal_strlit("md5-sess");
    assert(text::lower("MD5"@) =~= "md5"@);
    assert(text::lower("MD5-sess"@) =~= "md5-sess"@);
}

// ------------------------------------------------------------------ offers

/// An offer of our own is of both codecs, mu-law first, in both directions, at the address and port it
/// is made for, with the telephone events and the packet time it is made with.
pub proof fn law_both_codecs_are_offered(
    address: IpAddr,
    port: u16,
    events: Option<u8>,
    ptime: u32,
    now: u64,
)
    ensures
        ({
            let o = sdp::offered(address, port, events, ptime, now);
            &&& o.address == address && o.port == port
            &&& o.payload_types == seq![0u8, 8u8]
            &&& o.telephone_event == events && o.ptime == Some(ptime)
            &&& o.sendrecv == Direction::SendRecv
            &&& sdp::media_there(o) <==> port != 0 && (match address {
                IpAddr::V4(n) => n != 0,
                IpAddr::V6(n) => n != 0,
            })
        }),
{
}

} // verus!
