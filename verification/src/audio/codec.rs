//! G.711 A-law and µ-law, and the tables of DTMF.
use vstd::prelude::*;

verus! {

/// The largest magnitude that is encoded.
pub const CLIP: i32 = 32635;

/// What µ-law adds to a magnitude.
pub const BIAS: i32 = 0x84;

// ------------------------------------------------------------------ segments

/// How often a number is halved until it is below 256: its segment.
pub open spec fn segment(n: nat) -> nat
    decreases n,
{
    if n < 256 {
        0
    } else {
        1 + segment(n / 2)
    }
}

/// A number halved until it is below 256.
pub open spec fn reduced(n: nat) -> nat
    decreases n,
{
    if n < 256 {
        n
    } else {
        reduced(n / 2)
    }
}

/// A number doubled a number of times.
pub open spec fn doubled(n: int, times: nat) -> int
    decreases times,
{
    if times == 0 {
        n
    } else {
        2 * doubled(n, (times - 1) as nat)
    }
}

proof fn lemma_segment_bound(n: nat)
    requires
        n < 32768,
    ensures
        segment(n) <= 7,
        reduced(n) < 256,
        n >= 128 ==> reduced(n) >= 128,
        n >= 256 ==> segment(n) >= 1,
{
    reveal_with_fuel(segment, 9);
    reveal_with_fuel(reduced, 9);
}

proof fn lemma_doubled(a: int, b: int, times: nat)
    ensures
        doubled(a + b, times) == doubled(a, times) + doubled(b, times),
        doubled(-a, times) == -doubled(a, times),
        doubled(4, times) == 4 * doubled(1, times),
        doubled(8, times) == 8 * doubled(1, times),
        doubled(128, times) == 128 * doubled(1, times),
        doubled(1, times) >= 1,
        a <= b ==> doubled(a, times) <= doubled(b, times),
    decreases times,
{
    if times > 0 {
        lemma_doubled(a, b, (times - 1) as nat);
    }
}

/// A number lies in its segment.
proof fn lemma_segment(n: nat)
    ensures
        doubled(reduced(n) as int, segment(n)) <= n,
        n < doubled(reduced(n) as int, segment(n)) + doubled(1, segment(n)),
    decreases n,
{
    if n >= 256 {
        lemma_segment(n / 2);
    }
}

/// Doubling undoes halving.
proof fn lemma_reduced(n: nat, times: nat)
    requires
        128 <= n < 256,
    ensures
        doubled(n as int, times) >= 128,
        segment(doubled(n as int, times) as nat) == times,
        reduced(doubled(n as int, times) as nat) == n,
        n > 128 && times > 0 ==> segment((doubled(n as int, times) - 1) as nat) == times,
        n > 128 && times > 0 ==> reduced((doubled(n as int, times) - 1) as nat) == n - 1,
    decreases times,
{
    if times > 0 {
        let k = doubled(n as int, (times - 1) as nat);
        lemma_reduced(n, (times - 1) as nat);
        assert(doubled(n as int, times) == 2 * k);
        assert((2 * k) / 2 == k);
        assert((2 * k - 1) / 2 == k - 1);
        if n > 128 && times > 0 {
            if times == 1 {
                assert(k == n);
                assert(2 * k - 1 >= 256);
                assert(segment((k - 1) as nat) == 0);
                assert(reduced((k - 1) as nat) == k - 1);
                assert(reduced((2 * k - 1) as nat) == reduced(((2 * k - 1) / 2) as nat));
            } else {
                let j = doubled(n as int, (times - 2) as nat);
                lemma_reduced(n, (times - 2) as nat);
                assert(k == 2 * j);
                assert(2 * k - 1 >= 256);
                assert(reduced((2 * k - 1) as nat) == reduced(((2 * k - 1) / 2) as nat));
            }
        }
    }
}

fn segment_of(n: u32) -> (r: (u32, u32))
    requires
        n < 32768,
    ensures
        r.0 == segment(n as nat),
        r.1 == reduced(n as nat),
        r.0 <= 7,
        r.1 < 256,
{
    let mut x: u32 = n;
    let mut e: u32 = 0;
    proof {
        lemma_segment_bound(n as nat);
    }
    while x >= 256
        invariant
            x < 32768,
            segment(n as nat) == e + segment(x as nat),
            reduced(n as nat) == reduced(x as nat),
            segment(n as nat) <= 7,
        decreases x,
    {
        x = x / 2;
        e = e + 1;
    }
    (e, x)
}

fn double(n: i32, times: u32) -> (r: i32)
    requires
        0 <= n < 512,
        times <= 7,
    ensures
        r == doubled(n as int, times as nat),
        0 <= r < 65536,
{
    let mut r: i32 = n;
    let mut k: u32 = 0;
    assert(doubled(n as int, 0) == n);
    while k < times
        invariant
            k <= times <= 7,
            r == doubled(n as int, k as nat),
            0 <= n < 512,
            0 <= r,
            k == 0 ==> r < 512,
            k == 1 ==> r < 1024,
            k == 2 ==> r < 2048,
            k == 3 ==> r < 4096,
            k == 4 ==> r < 8192,
            k == 5 ==> r < 16384,
            k == 6 ==> r < 32768,
            k == 7 ==> r < 65536,
        decreases times - k,
    {
        r = r * 2;
        k = k + 1;
    }
    r
}

// ------------------------------------------------------------------ µ-law

/// A magnitude within what is encoded.
pub open spec fn clipped(n: int) -> int {
    if n > CLIP {
        CLIP as int
    } else {
        n
    }
}

/// The code of a sample: sign, segment and the four digits after the leading one of the biased
/// magnitude, all inverted.
pub open spec fn ulaw_code(s: int) -> nat {
    let m = clipped(if s < 0 {
        -s
    } else {
        s
    }) + BIAS;
    let sign: nat = if s < 0 {
        128
    } else {
        0
    };
    (255 - (sign + 16 * segment(m as nat) + reduced(m as nat) / 8 % 16)) as nat
}

/// The sample of a code.
pub open spec fn ulaw_sample(code: nat) -> int {
    let u = 255 - code;
    let m = doubled(8 * (u % 16) + BIAS, (u / 16 % 8) as nat) - BIAS;
    if u >= 128 {
        -m
    } else {
        m
    }
}

/// Linear 16-bit PCM to µ-law (G.711, ITU-T).
pub fn linear_to_ulaw(sample: i16) -> (r: u8)
    ensures
        r == ulaw_code(sample as int),
{
    let pcm: i32 = sample as i32;
    let (sign, magnitude): (u32, i32) = if pcm < 0 {
        (128, -pcm)
    } else {
        (0, pcm)
    };
    let magnitude = if magnitude > CLIP {
        CLIP
    } else {
        magnitude
    };
    let (e, x) = segment_of((magnitude + BIAS) as u32);
    (255 - (sign + 16 * e + x / 8 % 16)) as u8
}

/// µ-law to linear 16-bit PCM.
pub fn ulaw_to_linear(ulaw: u8) -> (r: i16)
    ensures
        r == ulaw_sample(ulaw as nat),
{
    let u: i32 = 255 - ulaw as i32;
    let n = 8 * (u % 16) + BIAS;
    let e = (u / 16 % 8) as u32;
    let m = double(n, e) - BIAS;
    proof {
        lemma_ulaw_range((u % 16) as int, e as nat);
    }
    if u >= 128 {
        (-m) as i16
    } else {
        m as i16
    }
}

proof fn lemma_ulaw_range(mantissa: int, e: nat)
    requires
        0 <= mantissa < 16,
        e <= 7,
    ensures
        0 <= doubled(8 * mantissa + BIAS, e) - BIAS <= 32124,
{
    let n = 8 * mantissa + BIAS;
    reveal_with_fuel(doubled, 8);
}

/// A sample that is encoded and decoded is off by at most a thirty-second of its biased magnitude,
/// and what was clipped off; its sign is kept.
pub proof fn law_ulaw_round_trip_is_close(s: i16)
    ensures
        ulaw_code(s as int) <= 255,
        ({
            let c = if s < 0 {
                -clipped(-s)
            } else {
                clipped(s as int)
            };
            let d = ulaw_sample(ulaw_code(s as int));
            let m = if s < 0 {
                -c
            } else {
                c
            };
            &&& -(m + BIAS) <= 32 * (d - c) <= m + BIAS
            &&& s < 0 ==> d <= 0
            &&& s > 0 ==> d >= 0
        }),
{
    let a = clipped(if s < 0 {
        -s
    } else {
        s as int
    });
    let m = (a + BIAS) as nat;
    let e = segment(m);
    let x = reduced(m);
    lemma_segment_bound(m);
    lemma_segment(m);
    let q = x / 8;
    assert(16 <= q < 32);
    assert(q % 16 == q - 16);
    let sign: nat = if s < 0 {
        128
    } else {
        0
    };
    let u = (sign + 16 * e + (q - 16)) as int;
    assert(u % 16 == q - 16);
    assert(u / 16 % 8 == e);
    let y = 8 * (q - 16) + BIAS;
    assert(x - 3 <= y <= x + 4);
    assert(ulaw_code(s as int) == 255 - u);
    let dx = doubled(x as int, e);
    let dy = doubled(y, e);
    let one = doubled(1, e);
    lemma_doubled(x as int, y - x, e);
    lemma_doubled(y - x, 4, e);
    lemma_doubled(4, -(y - x), e);
    assert(doubled(y, e) == dx + doubled(y - x, e));
    assert(doubled(y - x, e) <= 4 * one);
    assert(y - x >= -3);
    lemma_doubled(3, 1, e);
    lemma_doubled(-3, y - x, e);
    assert(doubled(-3, e) == -doubled(3, e));
    assert(doubled(3, e) == 3 * one);
    assert(doubled(y - x, e) >= -3 * one);
    assert(dx <= m < dx + one);
    lemma_doubled(128, x as int, e);
    assert(128 * one <= dx);
    lemma_ulaw_range(q - 16, e);
}

/// Every code but the one for negative zero comes back from its sample.
pub proof fn law_ulaw_codes_come_back(code: u8)
    requires
        code != 127,
    ensures
        -32768 <= ulaw_sample(code as nat) <= 32767,
        ulaw_code(ulaw_sample(code as nat)) == code,
{
    let u = 255 - code as int;
    let mantissa = u % 16;
    let e = (u / 16 % 8) as nat;
    let n = (8 * mantissa + BIAS) as nat;
    lemma_ulaw_range(mantissa, e);
    lemma_reduced(n, e);
    assert(n / 8 % 16 == mantissa);
    let m = doubled(n as int, e) - BIAS;
    if m == 0 {
        assert(doubled(n as int, e) == BIAS);
        assert(segment(132) == 0 && reduced(132) == 132);
        assert(e == 0 && n == 132);
    }
    assert(u == (if u >= 128 {
        128int
    } else {
        0
    }) + 16 * e + mantissa);
}

// ------------------------------------------------------------------ A-law

/// The code of a sample before alternate digits are inverted: sign, segment, and the four digits
/// after the leading one of the magnitude. The lowest segment has no leading one.
pub open spec fn alaw_level(s: int) -> nat {
    let m = clipped(if s < 0 {
        -s - 1
    } else {
        s
    }) as nat;
    let sign: nat = if s < 0 {
        0
    } else {
        128
    };
    sign + if m < 256 {
        m / 16
    } else {
        16 * segment(m) + reduced(m) / 8 % 16
    }
}

pub open spec fn alaw_code(s: int) -> u8 {
    (alaw_level(s) as u8) ^ 0x55
}

/// The sample of a code before alternate digits are inverted.
pub open spec fn alaw_level_sample(level: nat) -> int {
    let e = level / 16 % 8;
    let mantissa = (level % 16) as int;
    let m = if e == 0 {
        16 * mantissa + 8
    } else {
        doubled(16 * mantissa + 264, (e - 1) as nat)
    };
    if level >= 128 {
        m
    } else {
        -m
    }
}

pub open spec fn alaw_sample(code: u8) -> int {
    alaw_level_sample((code ^ 0x55) as nat)
}

proof fn lemma_alaw_range(mantissa: int, e: nat)
    requires
        0 <= mantissa < 16,
        1 <= e <= 7,
    ensures
        264 <= doubled(16 * mantissa + 264, (e - 1) as nat) <= 32256,
{
    reveal_with_fuel(doubled, 8);
}

proof fn lemma_inverted_twice(x: u8)
    ensures
        (x ^ 0x55) ^ 0x55 == x,
{
    assert((x ^ 0x55) ^ 0x55 == x) by (bit_vector);
}

/// Linear 16-bit PCM to A-law (G.711, ITU-T).
pub fn linear_to_alaw(sample: i16) -> (r: u8)
    ensures
        r == alaw_code(sample as int),
{
    let pcm: i32 = sample as i32;
    let (sign, magnitude): (u32, i32) = if pcm < 0 {
        (0, -pcm - 1)
    } else {
        (128, pcm)
    };
    let magnitude = if magnitude > CLIP {
        CLIP
    } else {
        magnitude
    };
    let m = magnitude as u32;
    let level = if m < 256 {
        sign + m / 16
    } else {
        let (e, x) = segment_of(m);
        sign + (16 * e + x / 8 % 16)
    };
    (level as u8) ^ 0x55
}

/// A-law to linear 16-bit PCM.
pub fn alaw_to_linear(alaw: u8) -> (r: i16)
    ensures
        r == alaw_sample(alaw),
{
    let level: i32 = (alaw ^ 0x55) as i32;
    let e = (level / 16 % 8) as u32;
    let mantissa = level % 16;
    let m = if e == 0 {
        16 * mantissa + 8
    } else {
        proof {
            lemma_alaw_range(mantissa as int, e as nat);
        }
        double(16 * mantissa + 264, e - 1)
    };
    if level >= 128 {
        m as i16
    } else {
        (-m) as i16
    }
}

/// Every code comes back from its sample.
pub proof fn law_alaw_codes_come_back(code: u8)
    ensures
        -32768 <= alaw_sample(code) <= 32767,
        alaw_code(alaw_sample(code)) == code,
{
    let level = (code ^ 0x55) as nat;
    lemma_inverted_twice(code);
    let e = level / 16 % 8;
    let mantissa = (level % 16) as int;
    assert(level == (if level >= 128 {
        128nat
    } else {
        0
    }) + 16 * e + mantissa);
    if e > 0 {
        lemma_alaw_range(mantissa, e);
        let n = (8 * mantissa + 132) as nat;
        lemma_reduced(n, e);
        lemma_doubled(n as int, n as int, (e - 1) as nat);
        assert(doubled(n as int, e) == doubled(16 * mantissa + 264, (e - 1) as nat));
        assert(n / 8 % 16 == mantissa);
        assert(((n - 1) as nat) / 8 % 16 == mantissa);
        lemma_segment_bound(doubled(n as int, e) as nat);
        lemma_segment_bound((doubled(n as int, e) - 1) as nat);
    }
    assert(alaw_level(alaw_sample(code)) == level);
}

/// A sample that is encoded and decoded is off by at most a thirty-second of its magnitude and
/// sixteen, and what was clipped off; its sign is kept.
pub proof fn law_alaw_round_trip_is_close(s: i16)
    ensures
        ({
            let d = alaw_sample(alaw_code(s as int));
            let m = clipped(if s < 0 {
                -s - 1
            } else {
                s as int
            });
            let c = if s < 0 {
                -m
            } else {
                m
            };
            &&& -(m + 512) <= 32 * (d - c) <= m + 512
            &&& s < 0 ==> d < 0
            &&& s >= 0 ==> d > 0
        }),
{
    let m = clipped(if s < 0 {
        -s - 1
    } else {
        s as int
    }) as nat;
    let level = alaw_level(s as int);
    lemma_segment_bound(m);
    lemma_inverted_twice(level as u8);
    let e = segment(m);
    let x = reduced(m);
    if m < 256 {
        assert(level / 16 % 8 == 0);
        assert(level % 16 == m / 16);
    } else {
        lemma_segment(m);
        let q = x / 8;
        assert(16 <= q < 32);
        assert(q % 16 == q - 16);
        assert(level % 16 == q - 16);
        assert(level / 16 % 8 == e);
        let y = 8 * (q - 16) + 132;
        let one = doubled(1, e);
        let dx = doubled(x as int, e);
        lemma_doubled(y, y, (e - 1) as nat);
        assert(doubled(y, e) == doubled(16 * (q - 16) + 264, (e - 1) as nat));
        lemma_doubled(x as int, y - x, e);
        lemma_doubled(y - x, 4, e);
        lemma_doubled(3, 1, e);
        lemma_doubled(-3, y - x, e);
        assert(doubled(-3, e) == -doubled(3, e)) by {
            lemma_doubled(3, 0, e);
        }
        assert(doubled(y - x, e) <= 4 * one);
        assert(doubled(y - x, e) >= -3 * one);
        lemma_doubled(128, x as int, e);
        assert(128 * one <= dx);
        lemma_alaw_range(q - 16, e);
    }
}

// ------------------------------------------------------------------ streams

#[derive(Debug, Clone, Copy, PartialEq, Eq, Structural)]
pub enum Law {
    Ulaw,
    Alaw,
}

pub open spec fn code_of(law: Law, s: i16) -> u8 {
    match law {
        Law::Ulaw => ulaw_code(s as int) as u8,
        Law::Alaw => alaw_code(s as int),
    }
}

pub open spec fn sample_of(law: Law, b: u8) -> i16 {
    match law {
        Law::Ulaw => ulaw_sample(b as nat) as i16,
        Law::Alaw => alaw_sample(b) as i16,
    }
}

pub fn encode(law: Law, pcm: &[i16], out: &mut Vec<u8>)
    ensures
        final(out)@ == Seq::new(pcm@.len(), |i: int| code_of(law, pcm@[i])),
{
    out.clear();
    let mut i: usize = 0;
    while i < pcm.len()
        invariant
            i <= pcm@.len(),
            out@ =~= Seq::new(i as nat, |j: int| code_of(law, pcm@[j])),
        decreases pcm@.len() - i,
    {
        let b = match law {
            Law::Ulaw => linear_to_ulaw(pcm[i]),
            Law::Alaw => linear_to_alaw(pcm[i]),
        };
        out.push(b);
        i += 1;
    }
}

pub fn decode(law: Law, payload: &[u8], out: &mut Vec<i16>)
    ensures
        final(out)@ == Seq::new(payload@.len(), |i: int| sample_of(law, payload@[i])),
{
    out.clear();
    let mut i: usize = 0;
    while i < payload.len()
        invariant
            i <= payload@.len(),
            out@ =~= Seq::new(i as nat, |j: int| sample_of(law, payload@[j])),
        decreases payload@.len() - i,
    {
        let s = match law {
            Law::Ulaw => ulaw_to_linear(payload[i]),
            Law::Alaw => alaw_to_linear(payload[i]),
        };
        out.push(s);
        i += 1;
    }
}

// ------------------------------------------------------------------ DTMF

/// The frequency of the row of a DTMF key, in hertz (ITU-T Q.23).
pub open spec fn low_tone(digit: char) -> Option<u32> {
    match digit {
        '1' | '2' | '3' | 'A' | 'a' => Some(697),
        '4' | '5' | '6' | 'B' | 'b' => Some(770),
        '7' | '8' | '9' | 'C' | 'c' => Some(852),
        '*' | '0' | '#' | 'D' | 'd' => Some(941),
        _ => None,
    }
}

/// The frequency of the column of a DTMF key, in hertz.
pub open spec fn high_tone(digit: char) -> Option<u32> {
    match digit {
        '1' | '4' | '7' | '*' => Some(1209),
        '2' | '5' | '8' | '0' => Some(1336),
        '3' | '6' | '9' | '#' => Some(1477),
        'A' | 'a' | 'B' | 'b' | 'C' | 'c' | 'D' | 'd' => Some(1633),
        _ => None,
    }
}

/// The two frequencies that make up a DTMF digit, in hertz.
pub fn dtmf_frequencies(digit: char) -> (r: Option<(u32, u32)>)
    ensures
        r == match (low_tone(digit), high_tone(digit)) {
            (Some(l), Some(h)) => Some((l, h)),
            _ => None,
        },
{
    let low: u32 = match digit {
        '1' | '2' | '3' | 'A' | 'a' => 697,
        '4' | '5' | '6' | 'B' | 'b' => 770,
        '7' | '8' | '9' | 'C' | 'c' => 852,
        '*' | '0' | '#' | 'D' | 'd' => 941,
        _ => {
            return None;
        },
    };
    let high: u32 = match digit {
        '1' | '4' | '7' | '*' => 1209,
        '2' | '5' | '8' | '0' => 1336,
        '3' | '6' | '9' | '#' => 1477,
        'A' | 'a' | 'B' | 'b' | 'C' | 'c' | 'D' | 'd' => 1633,
        _ => {
            return None;
        },
    };
    Some((low, high))
}

pub open spec fn key_at(row: int, column: int) -> char {
    if row == 0 {
        seq!['1', '2', '3', 'A'][column]
    } else if row == 1 {
        seq!['4', '5', '6', 'B'][column]
    } else if row == 2 {
        seq!['7', '8', '9', 'C'][column]
    } else {
        seq!['*', '0', '#', 'D'][column]
    }
}

/// The key in a row and a column of the keypad.
pub fn dtmf_key(row: usize, column: usize) -> (r: Option<char>)
    ensures
        r == if row < 4 && column < 4 {
            Some(key_at(row as int, column as int))
        } else {
            None
        },
{
    match (row, column) {
        (0, 0) => Some('1'),
        (0, 1) => Some('2'),
        (0, 2) => Some('3'),
        (0, 3) => Some('A'),
        (1, 0) => Some('4'),
        (1, 1) => Some('5'),
        (1, 2) => Some('6'),
        (1, 3) => Some('B'),
        (2, 0) => Some('7'),
        (2, 1) => Some('8'),
        (2, 2) => Some('9'),
        (2, 3) => Some('C'),
        (3, 0) => Some('*'),
        (3, 1) => Some('0'),
        (3, 2) => Some('#'),
        (3, 3) => Some('D'),
        _ => None,
    }
}

pub open spec fn row_tone(row: int) -> u32 {
    seq![697u32, 770, 852, 941][row]
}

pub open spec fn column_tone(column: int) -> u32 {
    seq![1209u32, 1336, 1477, 1633][column]
}

/// A key that is found by its two frequencies is the key that has them.
pub proof fn law_keys_have_their_tones(row: int, column: int)
    requires
        0 <= row < 4,
        0 <= column < 4,
    ensures
        low_tone(key_at(row, column)) == Some(row_tone(row)),
        high_tone(key_at(row, column)) == Some(column_tone(column)),
{
}

/// The samples in a number of milliseconds at a rate.
pub fn samples_in(rate: u32, ms: u32) -> (r: u64)
    ensures
        r == rate as nat * ms as nat / 1000,
{
    assert(rate as nat * ms as nat <= 0xffff_ffff * 0xffff_ffff) by (nonlinear_arith)
        requires
            rate <= 0xffff_ffff,
            ms <= 0xffff_ffff,
    ;
    rate as u64 * ms as u64 / 1000
}

/// What a digit sounds like: its two tones, how many samples it lasts, and over how many of them it
/// rises and falls.
#[derive(Debug, Clone, Copy, PartialEq, Eq, Structural)]
pub struct ToneShape {
    pub low: u32,
    pub high: u32,
    pub samples: u64,
    pub ramp: u64,
}

/// Both ends are ramped over four milliseconds, so the tone does not splatter, but over no more than
/// half of it.
pub open spec fn ramp_length(rate: nat, samples: nat) -> nat {
    let wanted = rate * 4 / 1000;
    let half = samples / 2;
    let r = if wanted < half {
        wanted
    } else {
        half
    };
    if r < 1 {
        1
    } else {
        r
    }
}

/// The shape of a digit, unless it has no tones.
pub fn tone_shape(digit: char, ms: u32, rate: u32) -> (r: Option<ToneShape>)
    ensures
        match r {
            Some(t) => low_tone(digit) == Some(t.low) && high_tone(digit) == Some(t.high)
                && t.samples == rate as nat * ms as nat / 1000 && t.ramp == ramp_length(
                rate as nat,
                t.samples as nat,
            ),
            None => low_tone(digit).is_none() || high_tone(digit).is_none(),
        },
{
    let (low, high) = match dtmf_frequencies(digit) {
        Some(f) => f,
        None => {
            return None;
        },
    };
    let samples = samples_in(rate, ms);
    let wanted = samples_in(rate, 4);
    let half = samples / 2;
    let least = if wanted < half {
        wanted
    } else {
        half
    };
    let ramp = if least < 1 {
        1
    } else {
        least
    };
    Some(ToneShape { low, high, samples, ramp })
}

/// The rise of a tone is over before its fall begins, wherever it has two samples or more.
pub proof fn law_ramps_do_not_overlap(rate: nat, samples: nat)
    ensures
        samples >= 2 ==> 2 * ramp_length(rate, samples) <= samples,
        ramp_length(rate, samples) >= 1,
{
}

} // verus!
