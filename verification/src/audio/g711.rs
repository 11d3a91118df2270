//! The code tables of G.711, against which the two compandings are held.
use vstd::prelude::*;

use crate::audio::codec;
use crate::audio::codec::Law;
use crate::media;

verus! {

/// A number of up to fifteen binary digits, halved until eight are left.
proof fn lemma_place(m: nat)
    requires
        128 <= m < 32768,
    ensures
        codec::segment(m) == 0 ==> m < 256 && codec::reduced(m) == m,
        codec::segment(m) == 1 ==> 256 <= m < 512 && codec::reduced(m) == m / 2,
        codec::segment(m) == 2 ==> 512 <= m < 1024 && codec::reduced(m) == m / 4,
        codec::segment(m) == 3 ==> 1024 <= m < 2048 && codec::reduced(m) == m / 8,
        codec::segment(m) == 4 ==> 2048 <= m < 4096 && codec::reduced(m) == m / 16,
        codec::segment(m) == 5 ==> 4096 <= m < 8192 && codec::reduced(m) == m / 32,
        codec::segment(m) == 6 ==> 8192 <= m < 16384 && codec::reduced(m) == m / 64,
        codec::segment(m) == 7 ==> 16384 <= m && codec::reduced(m) == m / 128,
        codec::segment(m) <= 7,
        128 <= codec::reduced(m) < 256,
{
    reveal_with_fuel(codec::segment, 9);
    reveal_with_fuel(codec::reduced, 9);
}

/// The A-law code of a sample is the one of G.711: with every other bit inverted back, bit 7 is the
/// sign, bits 4 to 6 are the segment and bits 0 to 3 the interval of it that holds the magnitude. No
/// other code has these bits.
pub proof fn law_an_alaw_code_is_that_of_the_table(s: i16)
    ensures
        ({
            let m = if s >= 0 {
                s as int
            } else {
                -s - 1
            };
            let c = if m > 32635 {
                32635
            } else {
                m
            };
            let b = (codec::code_of(Law::Alaw, s) ^ 0x55) as int;
            let e = b / 16 % 8;
            let q = b % 16;
            &&& codec::alaw_code(s as int) == codec::code_of(Law::Alaw, s)
            &&& b >= 128 <==> s >= 0
            &&& e == 0 ==> 0 + 16 * q <= c < 16 + 16 * q
            &&& e == 1 ==> 256 + 16 * q <= c < 272 + 16 * q
            &&& e == 2 ==> 512 + 32 * q <= c < 544 + 32 * q
            &&& e == 3 ==> 1024 + 64 * q <= c < 1088 + 64 * q
            &&& e == 4 ==> 2048 + 128 * q <= c < 2176 + 128 * q
            &&& e == 5 ==> 4096 + 256 * q <= c < 4352 + 256 * q
            &&& e == 6 ==> 8192 + 512 * q <= c < 8704 + 512 * q
            &&& e == 7 ==> 16384 + 1024 * q <= c < 17408 + 1024 * q
        }),
{
    let m = codec::clipped(if s < 0 {
        -s - 1
    } else {
        s as int
    }) as nat;
    let level = codec::alaw_level(s as int);
    if m >= 256 {
        lemma_place(m);
        let q = codec::reduced(m) / 8;
        assert(q % 16 == q - 16);
        assert(level / 16 % 8 == codec::segment(m));
        assert(level % 16 == q - 16);
    } else {
        assert(level / 16 % 8 == 0);
        assert(level % 16 == m / 16);
    }
    let x = level as u8;
    assert((x ^ 0x55) ^ 0x55 == x) by (bit_vector);
}

/// An A-law code stands for the sample of G.711: the middle of its interval, with its sign.
pub proof fn law_an_alaw_sample_is_that_of_the_table(code: u8)
    ensures
        ({
            let b = (code ^ 0x55) as int;
            let e = b / 16 % 8;
            let q = b % 16;
            let v = codec::sample_of(Law::Alaw, code) as int;
            let m = if b >= 128 {
                v
            } else {
                -v
            };
            &&& codec::alaw_sample(code) == v
            &&& e == 0 ==> m == 8 + 16 * q
            &&& e == 1 ==> m == 264 + 16 * q
            &&& e == 2 ==> m == 528 + 32 * q
            &&& e == 3 ==> m == 1056 + 64 * q
            &&& e == 4 ==> m == 2112 + 128 * q
            &&& e == 5 ==> m == 4224 + 256 * q
            &&& e == 6 ==> m == 8448 + 512 * q
            &&& e == 7 ==> m == 16896 + 1024 * q
        }),
{
    reveal_with_fuel(codec::doubled, 9);
}

/// The µ-law code of a sample is the one of G.711: with all bits inverted back, bit 7 is the sign, bits
/// 4 to 6 are the segment and bits 0 to 3 the interval of it that holds the magnitude and its bias. No
/// other code has these bits.
pub proof fn law_a_ulaw_code_is_that_of_the_table(s: i16)
    ensures
        ({
            let m = if s >= 0 {
                s as int
            } else {
                -s
            };
            let c = 132 + if m > 32635 {
                32635
            } else {
                m
            };
            let b = 255 - codec::code_of(Law::Ulaw, s);
            let e = b / 16 % 8;
            let q = b % 16;
            &&& codec::ulaw_code(s as int) == codec::code_of(Law::Ulaw, s)
            &&& b >= 128 <==> s < 0
            &&& e == 0 ==> 128 + 8 * q <= c < 136 + 8 * q
            &&& e == 1 ==> 256 + 16 * q <= c < 272 + 16 * q
            &&& e == 2 ==> 512 + 32 * q <= c < 544 + 32 * q
            &&& e == 3 ==> 1024 + 64 * q <= c < 1088 + 64 * q
            &&& e == 4 ==> 2048 + 128 * q <= c < 2176 + 128 * q
            &&& e == 5 ==> 4096 + 256 * q <= c < 4352 + 256 * q
            &&& e == 6 ==> 8192 + 512 * q <= c < 8704 + 512 * q
            &&& e == 7 ==> 16384 + 1024 * q <= c < 17408 + 1024 * q
        }),
{
    let m = (codec::clipped(if s < 0 {
        -s
    } else {
        s as int
    }) + 132) as nat;
    lemma_place(m);
    let e = codec::segment(m) as int;
    let q = (codec::reduced(m) / 8) as int;
    assert(q % 16 == q - 16);
    let u = (if s < 0 {
        128int
    } else {
        0
    }) + 16 * e + q - 16;
    assert(codec::ulaw_code(s as int) == 255 - u);
    assert(u / 16 % 8 == e);
    assert(u % 16 == q - 16);
}

/// A µ-law code stands for the sample of G.711: the middle of its interval without the bias, with its
/// sign.
pub proof fn law_a_ulaw_sample_is_that_of_the_table(code: u8)
    ensures
        ({
            let b = 255 - code;
            let e = b / 16 % 8;
            let q = b % 16;
            let v = codec::sample_of(Law::Ulaw, code) as int;
            let m = if b >= 128 {
                -v
            } else {
                v
            };
            &&& codec::ulaw_sample(code as nat) == v
            &&& e == 0 ==> m == 0 + 8 * q
            &&& e == 1 ==> m == 132 + 16 * q
            &&& e == 2 ==> m == 396 + 32 * q
            &&& e == 3 ==> m == 924 + 64 * q
            &&& e == 4 ==> m == 1980 + 128 * q
            &&& e == 5 ==> m == 4092 + 256 * q
            &&& e == 6 ==> m == 8316 + 512 * q
            &&& e == 7 ==> m == 16764 + 1024 * q
        }),
{
    reveal_with_fuel(codec::doubled, 9);
}

/// Louder samples never have lower codes: among samples of one sign the codes, their bits inverted
/// back, order as the magnitudes do.
#[verifier::rlimit(40)]
pub proof fn law_alaw_codes_order_as_samples(s: i16, t: i16)
    requires
        0 <= s <= t || t <= s < 0,
    ensures
        codec::code_of(Law::Alaw, s) ^ 0x55 <= codec::code_of(Law::Alaw, t) ^ 0x55,
{
    law_an_alaw_code_is_that_of_the_table(s);
    law_an_alaw_code_is_that_of_the_table(t);
}

/// The same under µ-law, where all bits are inverted, so that louder samples never have higher codes.
#[verifier::rlimit(40)]
pub proof fn law_ulaw_codes_order_as_samples(s: i16, t: i16)
    requires
        0 <= s <= t || t <= s < 0,
    ensures
        codec::code_of(Law::Ulaw, s) >= codec::code_of(Law::Ulaw, t),
{
    law_a_ulaw_code_is_that_of_the_table(s);
    law_a_ulaw_code_is_that_of_the_table(t);
    let a = 255 - codec::code_of(Law::Ulaw, s);
    let b = 255 - codec::code_of(Law::Ulaw, t);
    assert(a / 16 % 8 <= b / 16 % 8);
    assert(a / 16 % 8 == b / 16 % 8 ==> a % 16 <= b % 16);
}

/// A stream is coded sample by sample, in order and under one companding, and so is it read: with the
/// tables above, every peer that speaks G.711 hears what was said.
pub proof fn law_streams_are_coded_sample_by_sample(law: Law, pcm: Seq<i16>, payload: Seq<u8>)
    ensures
        media::coded(law, pcm).len() == pcm.len(),
        media::decoded(law, payload).len() == payload.len(),
        forall|i: int|
            0 <= i < pcm.len() ==> #[trigger] media::coded(law, pcm)[i] == codec::code_of(law, pcm[i]),
        forall|i: int|
            0 <= i < payload.len() ==> #[trigger] media::decoded(law, payload)[i] == codec::sample_of(
                law,
                payload[i],
            ),
{
}

} // verus!
