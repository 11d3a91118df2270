//! The buffers between the modem's sound card and the RTP side.
//!
//! Capture and playback exchange 8 kHz mono PCM with the RTP side through two ring buffers. The
//! sound card's own threads are the caller's.
use std::collections::VecDeque;
use vstd::prelude::*;

use super::codec;

verus! {

/// The RTP side always runs at 8 kHz narrow band.
pub const RTP_RATE: u32 = 8000;

/// Hard ceiling on queued DTMF, in samples (8 s at 8 kHz).
pub const MAX_TONE_SAMPLES: usize = 64_000;

/// Consecutive sound card errors after which a stream is given up.
pub const MAX_ERRORS: u32 = 50;

/// How the sound card is opened.
#[derive(Debug)]
pub struct AudioParams {
    pub capture_device: String,
    pub playback_device: String,
    pub card_rate: u32,
    pub period_ms: u32,
    pub periods: u32,
    /// Target buffering depth; also the backlog the rings are trimmed to.
    pub jitter_ms: u32,
}

/// Ring buffers of 8 kHz mono PCM.
#[derive(Debug)]
pub struct AudioRings {
    /// Modem microphone to RTP.
    pub to_network: VecDeque<i16>,
    /// RTP to modem speaker.
    pub to_modem: VecDeque<i16>,
    /// Locally generated audio (DTMF) that takes over the uplink while it lasts. Replacing rather
    /// than mixing keeps the tone clean for the detector at the far end.
    pub tone: VecDeque<i16>,
    /// Backlog each ring is trimmed back to once it runs long.
    pub target: usize,
    /// Backlog that triggers a trim.
    pub high_water: usize,
    pub underruns: u32,
    pub overruns: u32,
    /// The levels of the frames taken for the network, added up.
    pub level_sum: u32,
    /// How many frames were taken for the network.
    pub level_frames: u32,
}

/// The rings, mathematically.
#[verifier::ext_equal]
pub struct Rings {
    pub to_network: Seq<i16>,
    pub to_modem: Seq<i16>,
    pub tone: Seq<i16>,
    pub target: usize,
    pub high_water: usize,
    pub underruns: u32,
    pub overruns: u32,
    pub level_sum: u32,
    pub level_frames: u32,
}

impl View for AudioRings {
    type V = Rings;

    open spec fn view(&self) -> Rings {
        Rings {
            to_network: self.to_network@,
            to_modem: self.to_modem@,
            tone: self.tone@,
            target: self.target,
            high_water: self.high_water,
            underruns: self.underruns,
            overruns: self.overruns,
            level_sum: self.level_sum,
            level_frames: self.level_frames,
        }
    }
}

/// The samples of a number of milliseconds fit in memory.
pub open spec fn fits(ms: u32) -> bool {
    8000 * ms <= usize::MAX
}

/// The backlog for a jitter depth: the depth, but at least a period and 20 ms.
pub open spec fn target_depth(jitter_ms: u32, period_ms: u32) -> nat {
    let ms = if jitter_ms > period_ms {
        jitter_ms
    } else {
        period_ms
    };
    if ms > 20 {
        8 * ms as nat
    } else {
        160
    }
}

/// A ring without the delay it has accumulated beyond its target.
pub open spec fn trimmed(s: Seq<i16>, target: usize, high_water: usize) -> Seq<i16> {
    if s.len() > high_water {
        s.skip(s.len() - target)
    } else {
        s
    }
}

pub open spec fn counted(n: u32) -> u32 {
    ((n + 1) % 0x1_0000_0000) as u32
}

/// The first samples of a ring, with silence where there are not enough.
pub open spec fn padded(s: Seq<i16>, n: nat) -> Seq<i16> {
    Seq::new(
        n,
        |i: int|
            if i < s.len() {
                s[i]
            } else {
                0
            },
    )
}

/// What is left of a ring.
pub open spec fn rest(s: Seq<i16>, n: nat) -> Seq<i16> {
    if n < s.len() {
        s.skip(n as int)
    } else {
        seq![]
    }
}

pub open spec fn magnitude(s: i16) -> nat {
    if s < 0 {
        (-s) as nat
    } else {
        s as nat
    }
}

pub open spec fn magnitudes(s: Seq<i16>) -> nat
    decreases s.len(),
{
    if s.len() == 0 {
        0
    } else {
        magnitudes(s.drop_last()) + magnitude(s.last())
    }
}

/// The level of a frame: the mean magnitude of its samples.
pub open spec fn level_of(s: Seq<i16>) -> nat {
    magnitudes(s) / s.len()
}

pub open spec fn capped_sum(a: nat, b: nat) -> u32 {
    if a + b > u32::MAX {
        u32::MAX
    } else {
        (a + b) as u32
    }
}

fn count(n: u32) -> (r: u32)
    ensures
        r == counted(n),
{
    if n == 0xffff_ffff {
        0
    } else {
        n + 1
    }
}

fn drop_front(ring: &mut VecDeque<i16>, n: usize)
    ensures
        final(ring)@ == rest(old(ring)@, n as nat),
{
    let ghost s = ring@;
    let mut i: usize = 0;
    assert(rest(s, 0) =~= s);
    while i < n && ring.len() > 0
        invariant
            i <= n,
            ring@ == rest(s, i as nat),
        decreases n - i,
    {
        let _ = ring.pop_front();
        i += 1;
        assert(ring@ =~= rest(s, i as nat));
    }
    assert(ring@ =~= rest(s, n as nat));
}

fn take_front(ring: &mut VecDeque<i16>, n: usize) -> (r: Vec<i16>)
    ensures
        r@ == padded(old(ring)@, n as nat),
        final(ring)@ == rest(old(ring)@, n as nat),
{
    let ghost s = ring@;
    let mut out: Vec<i16> = Vec::new();
    let mut i: usize = 0;
    assert(rest(s, 0) =~= s);
    while i < n
        invariant
            i <= n,
            ring@ == rest(s, i as nat),
            out@ =~= padded(s, i as nat),
        decreases n - i,
    {
        let x = match ring.pop_front() {
            Some(x) => x,
            None => 0,
        };
        out.push(x);
        i += 1;
        assert(ring@ =~= rest(s, i as nat));
    }
    out
}

fn push_all(ring: &mut VecDeque<i16>, samples: &[i16])
    ensures
        final(ring)@ == old(ring)@ + samples@,
{
    let ghost s = ring@;
    let mut i: usize = 0;
    while i < samples.len()
        invariant
            i <= samples@.len(),
            ring@ =~= s + samples@.take(i as int),
        decreases samples@.len() - i,
    {
        ring.push_back(samples[i]);
        i += 1;
    }
    assert(samples@.take(i as int) =~= samples@);
}

/// Whether the ring had to be cut.
fn trim(ring: &mut VecDeque<i16>, target: usize, high_water: usize) -> (r: bool)
    requires
        target <= high_water,
    ensures
        final(ring)@ == trimmed(old(ring)@, target, high_water),
        r == (old(ring)@.len() > high_water),
{
    if ring.len() > high_water {
        let excess = ring.len() - target;
        drop_front(ring, excess);
        assert(ring@ =~= trimmed(old(ring)@, target, high_water));
        true
    } else {
        false
    }
}

fn frame_level(s: &Vec<i16>) -> (r: u32)
    requires
        s@.len() > 0,
    ensures
        r == level_of(s@),
        r <= 32768,
{
    let mut sum: u128 = 0;
    let mut i: usize = 0;
    while i < s.len()
        invariant
            i <= s@.len(),
            sum == magnitudes(s@.take(i as int)),
            sum <= 32768 * i,
            i <= usize::MAX,
        decreases s@.len() - i,
    {
        let x: i32 = s[i] as i32;
        let m = if x < 0 {
            -x
        } else {
            x
        };
        assert(s@.take(i + 1).drop_last() =~= s@.take(i as int));
        sum = sum + m as u128;
        i += 1;
    }
    assert(s@.take(i as int) =~= s@);
    let n = s.len() as u128;
    assert(sum / n <= 32768) by (nonlinear_arith)
        requires
            sum <= 32768 * n,
            n > 0,
    ;
    (sum / n) as u32
}

/// The rings once a number of samples was taken for the network: they are gone, and the level of what
/// was sent is counted.
pub open spec fn after_take(r: Rings, n: nat) -> Rings {
    Rings {
        to_network: rest(r.to_network, n),
        level_sum: if n > 0 {
            capped_sum(r.level_sum as nat, level_of(padded(r.to_network, n)))
        } else {
            r.level_sum
        },
        level_frames: if n > 0 {
            capped_sum(r.level_frames as nat, 1)
        } else {
            r.level_frames
        },
        ..r
    }
}

impl AudioRings {
    pub open spec fn wf(&self) -> bool {
        self.target <= self.high_water && self.tone@.len() <= MAX_TONE_SAMPLES
            && self.to_network@.len() <= self.high_water && self.to_modem@.len()
            <= self.high_water
    }

    /// Sized from the target jitter depth: that is how much delay the call is meant to carry, and
    /// anything beyond it is drift to be given back.
    pub fn new(jitter_ms: u32, period_ms: u32) -> (r: Self)
        requires
            fits(jitter_ms),
            fits(period_ms),
        ensures
            r.wf(),
            r@ == (Rings {
                to_network: seq![],
                to_modem: seq![],
                tone: seq![],
                target: target_depth(jitter_ms, period_ms) as usize,
                high_water: (3 * target_depth(jitter_ms, period_ms)) as usize,
                underruns: 0,
                overruns: 0,
                level_sum: 0,
                level_frames: 0,
            }),
            r@.high_water == 3 * target_depth(jitter_ms, period_ms),
    {
        let ms = if jitter_ms > period_ms {
            jitter_ms
        } else {
            period_ms
        };
        let target: usize = if ms > 20 {
            8 * ms as usize
        } else {
            160
        };
        AudioRings {
            to_network: VecDeque::new(),
            to_modem: VecDeque::new(),
            tone: VecDeque::new(),
            target,
            high_water: target * 3,
            underruns: 0,
            overruns: 0,
            level_sum: 0,
            level_frames: 0,
        }
    }

    /// Take exactly a number of samples for the network, padding with silence when the card has not
    /// produced enough yet (call setup, xrun recovery).
    pub fn take_for_network(&mut self, n: usize) -> (r: Vec<i16>)
        requires
            old(self).wf(),
        ensures
            final(self).wf(),
            r@ == padded(old(self)@.to_network, n as nat),
            final(self)@ == after_take(old(self)@, n as nat),
    {
        let out = take_front(&mut self.to_network, n);
        if n > 0 {
            let level = frame_level(&out);
            self.level_sum = if self.level_sum > 0xffff_ffff - level {
                0xffff_ffff
            } else {
                self.level_sum + level
            };
            self.level_frames = if self.level_frames == 0xffff_ffff {
                0xffff_ffff
            } else {
                self.level_frames + 1
            };
        }
        out
    }

    /// Feed captured audio towards the network.
    ///
    /// The card's crystal and the packet clock never run at exactly the same rate, and a scheduling
    /// hiccup adds a step change on top, so one side always drifts. Trimming to the target gives the
    /// delay back in one go.
    pub fn push_from_card(&mut self, samples: &[i16])
        requires
            old(self).wf(),
        ensures
            final(self).wf(),
            ({
                let s = old(self)@.to_network + samples@;
                final(self)@ == (Rings {
                    to_network: trimmed(s, old(self)@.target, old(self)@.high_water),
                    overruns: if s.len() > old(self)@.high_water {
                        counted(old(self)@.overruns)
                    } else {
                        old(self)@.overruns
                    },
                    ..old(self)@
                })
            }),
    {
        push_all(&mut self.to_network, samples);
        if trim(&mut self.to_network, self.target, self.high_water) {
            self.overruns = count(self.overruns);
        }
    }

    /// Feed decoded RTP audio towards the modem.
    pub fn push_from_network(&mut self, samples: &[i16])
        requires
            old(self).wf(),
        ensures
            final(self).wf(),
            ({
                let s = old(self)@.to_modem + samples@;
                final(self)@ == (Rings {
                    to_modem: trimmed(s, old(self)@.target, old(self)@.high_water),
                    overruns: if s.len() > old(self)@.high_water {
                        counted(old(self)@.overruns)
                    } else {
                        old(self)@.overruns
                    },
                    ..old(self)@
                })
            }),
    {
        push_all(&mut self.to_modem, samples);
        if trim(&mut self.to_modem, self.target, self.high_water) {
            self.overruns = count(self.overruns);
        }
    }

    /// Queue locally generated uplink audio (a DTMF digit).
    ///
    /// Returns false when the queue is full: dropping the head would cut a tone in half, so a caller
    /// pasting a long PIN is told the tail did not fit rather than being handed a corrupted string.
    pub fn queue_tone(&mut self, samples: &[i16]) -> (r: bool)
        requires
            old(self).wf(),
        ensures
            final(self).wf(),
            r == (old(self)@.tone.len() + samples@.len() <= MAX_TONE_SAMPLES),
            final(self)@ == (Rings {
                tone: if r {
                    old(self)@.tone + samples@
                } else {
                    old(self)@.tone
                },
                ..old(self)@
            }),
    {
        if samples.len() > MAX_TONE_SAMPLES - self.tone.len() {
            return false;
        }
        push_all(&mut self.tone, samples);
        true
    }

    pub fn tone_pending(&self) -> (r: bool)
        ensures
            r == (self@.tone.len() > 0),
    {
        self.tone.len() > 0
    }

    /// Take exactly a number of samples for the card: the queued tone while it lasts, and the
    /// far-end audio otherwise. The far-end audio that a tone talks over is dropped, otherwise the
    /// call would run late by exactly the length of the tone.
    pub fn take_for_card(&mut self, n: usize) -> (r: Vec<i16>)
        requires
            old(self).wf(),
        ensures
            final(self).wf(),
            ({
                let o = old(self)@;
                if o.tone.len() > 0 {
                    &&& r@ == padded(o.tone, n as nat)
                    &&& final(self)@ == (Rings {
                        tone: rest(o.tone, n as nat),
                        to_modem: rest(o.to_modem, n as nat),
                        ..o
                    })
                } else {
                    &&& r@ == padded(o.to_modem, n as nat)
                    &&& final(self)@ == (Rings {
                        to_modem: rest(o.to_modem, n as nat),
                        underruns: if o.to_modem.len() < n {
                            counted(o.underruns)
                        } else {
                            o.underruns
                        },
                        ..o
                    })
                }
            }),
    {
        if self.tone.len() > 0 {
            let out = take_front(&mut self.tone, n);
            drop_front(&mut self.to_modem, n);
            return out;
        }
        if self.to_modem.len() < n {
            self.underruns = count(self.underruns);
        }
        take_front(&mut self.to_modem, n)
    }

    /// The levels of the frames taken for the network added up, and how many there were.
    pub fn uplink_raw(&self) -> (r: (u32, u32))
        ensures
            r == (self@.level_sum, self@.level_frames),
    {
        (self.level_sum, self.level_frames)
    }

    /// Average level of what has been sent to the network, and over how many frames.
    pub fn uplink_level(&self) -> (r: (u32, u32))
        ensures
            r.1 == self@.level_frames,
            r.0 == if self@.level_frames == 0 {
                0u32
            } else {
                self@.level_sum / self@.level_frames
            },
    {
        if self.level_frames == 0 {
            (0, 0)
        } else {
            (self.level_sum / self.level_frames, self.level_frames)
        }
    }

    pub fn reset_uplink_level(&mut self)
        ensures
            final(self)@ == (Rings { level_sum: 0, level_frames: 0, ..old(self)@ }),
            old(self).wf() ==> final(self).wf(),
    {
        self.level_sum = 0;
        self.level_frames = 0;
    }
}

/// Whatever is pushed, a ring is never longer than its high water mark, and a trim leaves exactly
/// the target: the newest samples.
pub proof fn law_a_ring_is_trimmed_to_its_target(
    s: Seq<i16>,
    samples: Seq<i16>,
    target: usize,
    high_water: usize,
)
    requires
        target <= high_water,
    ensures
        trimmed(s + samples, target, high_water).len() <= high_water,
        (s + samples).len() > high_water ==> trimmed(s + samples, target, high_water).len()
            == target,
        (s + samples).len() <= high_water ==> trimmed(s + samples, target, high_water) == s
            + samples,
        samples.len() <= target && (s + samples).len() > high_water ==> trimmed(
            s + samples,
            target,
            high_water,
        ).skip(target - samples.len()) == samples,
{
    let t = trimmed(s + samples, target, high_water);
    if samples.len() <= target && (s + samples).len() > high_water {
        assert(t.skip(target - samples.len()) =~= samples);
    }
}

/// What comes out of a ring is what went in, in order: two takes are one.
pub proof fn law_takes_add_up(s: Seq<i16>, a: nat, b: nat)
    ensures
        padded(s, a) + padded(rest(s, a), b) == padded(s, a + b),
        rest(rest(s, a), b) == rest(s, a + b),
{
    assert(padded(s, a) + padded(rest(s, a), b) =~= padded(s, a + b));
    assert(rest(rest(s, a), b) =~= rest(s, a + b));
}

// ------------------------------------------------------------------ the card

/// Frames in a number of milliseconds at a rate.
pub fn period_frames(rate: u32, ms: u32) -> (r: u64)
    ensures
        r == rate as nat * ms as nat / 1000,
{
    codec::samples_in(rate, ms)
}

/// What to do about an error of the sound card.
#[derive(Debug, Clone, Copy, PartialEq, Eq, Structural)]
pub enum Recovery {
    Recover,
    GiveUp,
}

/// Count one more error in a row; a stream that goes on failing is dead.
pub fn recover(errors: &mut u32) -> (r: Recovery)
    requires
        *old(errors) <= MAX_ERRORS,
    ensures
        *final(errors) == *old(errors) + 1,
        r == if *final(errors) > MAX_ERRORS {
            Recovery::GiveUp
        } else {
            Recovery::Recover
        },
{
    *errors = *errors + 1;
    if *errors > MAX_ERRORS {
        Recovery::GiveUp
    } else {
        Recovery::Recover
    }
}

} // verus!
