//! Cyclic beat-timing engine.
//!
//! A [`Rhythm`] tracks where within a repeating measure a clock currently
//! is, and answers whether the clock sits on, or acceptably close to, one
//! of the accepted beats of the measure.  All durations are microseconds.

use vstd::prelude::*;
use vstd::arithmetic::div_mod::lemma_fundamental_div_mod;
use vstd::arithmetic::div_mod::lemma_mod_add_multiples_vanish;
use vstd::arithmetic::div_mod::lemma_mod_bound;
use vstd::arithmetic::div_mod::lemma_mod_multiples_vanish;
use vstd::arithmetic::div_mod::lemma_div_non_zero;
use vstd::arithmetic::div_mod::lemma_multiply_divide_lt;
use vstd::arithmetic::div_mod::lemma_small_mod;
use vstd::arithmetic::mul::lemma_mul_inequality;

verus! {

/// Microseconds in one minute; a beat at `tempo` beats per minute lasts
/// `MINUTE_US / tempo` microseconds.
pub const MINUTE_US: u64 = 60_000_000;

/// Mathematical state of a rhythm clock: how many beats one measure has,
/// how long a beat lasts, the elapsed time within the current measure, and
/// which beat indices are accepted.
#[verifier::ext_equal]
pub struct RhythmModel {
    /// Number of beats in a measure.
    pub length: int,
    /// Length of one beat, in microseconds.
    pub duration: int,
    /// Elapsed time within the current measure, in microseconds.
    pub time: int,
    /// Accepted beat indices, zero-indexed.
    pub beats: Seq<int>,
}

impl RhythmModel {
    /// Length of the whole measure in microseconds.
    pub open spec fn total(self) -> int {
        self.duration * self.length
    }

    /// The clock is well formed: positive beat and measure lengths, a
    /// measure that fits comfortably in 64-bit arithmetic, a wrapped
    /// elapsed time, and accepted beats within the measure.
    pub open spec fn wf(self) -> bool {
        &&& 1 <= self.duration
        &&& 1 <= self.length
        &&& self.duration * self.length <= i64::MAX as int
        &&& 0 <= self.time < self.total()
        &&& forall|i: int| 0 <= i < self.beats.len() ==> 0 <= #[trigger] self.beats[i] < self.length
    }

    /// The clock after `dt` microseconds pass (negative `dt` rewinds);
    /// the elapsed time wraps into `[0, total)`.
    pub open spec fn advanced(self, dt: int) -> RhythmModel {
        RhythmModel { time: (self.time + dt) % self.total(), ..self }
    }

    /// The clock with the elapsed time set back to the start of the measure.
    pub open spec fn restarted(self) -> RhythmModel {
        RhythmModel { time: 0, ..self }
    }

    /// The clock with a new beat duration; the elapsed time re-wraps into
    /// the new measure.
    pub open spec fn with_duration(self, d: int) -> RhythmModel {
        RhythmModel { duration: d, time: self.time % (d * self.length), ..self }
    }

    /// Index of the beat the clock currently is in.
    pub open spec fn beat_index(self) -> int {
        self.time / self.duration
    }

    /// The current beat is one of the accepted beats.
    pub open spec fn is_on(self) -> bool {
        self.beats.contains(self.beat_index())
    }

    /// Cyclic distance, measured forward around the measure, from the
    /// start of beat `b` to the current position.
    pub open spec fn fwd_dist(self, b: int) -> int {
        (self.time - b * self.duration) % self.total()
    }

    /// The current position lies within `w` microseconds of the start of
    /// beat `b`, in either cyclic direction.
    pub open spec fn near_beat_start(self, b: int, w: int) -> bool {
        self.fwd_dist(b) < w || self.total() - self.fwd_dist(b) < w
    }

    /// Some accepted beat starts within `w` microseconds of the current
    /// position, in either cyclic direction.  This is the movement gate.
    pub open spec fn in_window(self, w: int) -> bool {
        exists|i: int|
            0 <= i < self.beats.len() && self.near_beat_start(#[trigger] self.beats[i], w)
    }

    /// The current position lies within the cyclic interval that starts
    /// `w` before beat `b` and ends `w` after beat `b` finishes.
    pub open spec fn within_beat_span(self, b: int, w: int) -> bool {
        self.fwd_dist(b) < self.duration + w || self.fwd_dist(b) >= self.total() - w
    }

    /// Some accepted beat is active, about to become active within `w`,
    /// or was active less than `w` ago.  This is the tile-activity test.
    pub open spec fn on_beat(self, w: int) -> bool {
        exists|i: int|
            0 <= i < self.beats.len() && self.within_beat_span(#[trigger] self.beats[i], w)
    }
}

/// Length of one beat in microseconds at `tempo` beats per minute.
pub open spec fn beat_length_spec(tempo: int) -> int {
    MINUTE_US as int / tempo
}

/// Length of one beat in microseconds at `tempo` beats per minute.
pub fn beat_length(tempo: u32) -> (r: u64)
    requires
        1 <= tempo,
    ensures
        r == beat_length_spec(tempo as int),
        tempo <= MINUTE_US ==> 1 <= r,
{
    proof {
        if tempo <= MINUTE_US {
            lemma_div_non_zero(MINUTE_US as int, tempo as int);
        }
    }
    MINUTE_US / (tempo as u64)
}

/// A cyclic beat clock together with the set of accepted beats of its
/// measure.
pub struct Rhythm {
    /// Number of beats in a measure.
    length: usize,
    /// Which beats to play; zero-indexed.
    beats: Vec<usize>,
    /// Length of a beat, in microseconds.
    duration: u64,
    /// The elapsed time within the current measure, in microseconds.
    time: u64,
}

impl View for Rhythm {
    type V = RhythmModel;

    closed spec fn view(&self) -> RhythmModel {
        RhythmModel {
            length: self.length as int,
            duration: self.duration as int,
            time: self.time as int,
            beats: self.beats@.map_values(|b: usize| b as int),
        }
    }
}

/// `(t + m) % total` computed without leaving `[0, 2 * total)`:
/// first reduce `m`, then subtract `total` from the sum if needed.
proof fn lemma_wrap_add(t: int, m: int, total: int)
    requires
        0 <= t < total,
        0 <= m,
    ensures
        m % total < total,
        t + m % total >= total ==> (t + m) % total == t + m % total - total,
        t + m % total < total ==> (t + m) % total == t + m % total,
{
    let k = m % total;
    lemma_mod_bound(m, total);
    lemma_fundamental_div_mod(m, total);
    // m == total * (m / total) + k, so t + m == total * (m / total) + (t + k)
    lemma_mod_multiples_vanish(m / total, t + k, total);
    if t + k >= total {
        lemma_mod_add_multiples_vanish(t + k - total, total);
        lemma_small_mod((t + k - total) as nat, total as nat);
    } else {
        lemma_small_mod((t + k) as nat, total as nat);
    }
}

/// `(t - m) % total` computed without leaving `(-total, total)`:
/// first reduce `m`, then add `total` back if the difference went negative.
proof fn lemma_wrap_sub(t: int, m: int, total: int)
    requires
        0 <= t < total,
        0 <= m,
    ensures
        m % total < total,
        t >= m % total ==> (t - m) % total == t - m % total,
        t < m % total ==> (t - m) % total == t + total - m % total,
{
    let k = m % total;
    let q = m / total;
    lemma_mod_bound(m, total);
    lemma_fundamental_div_mod(m, total);
    // m == total * q + k, so t - m == total * (-q) + (t - k)
    assert(total * (-q) == -(total * q)) by (nonlinear_arith);
    lemma_mod_multiples_vanish(-q, t - k, total);
    if t >= k {
        lemma_small_mod((t - k) as nat, total as nat);
    } else {
        lemma_mod_add_multiples_vanish(t - k, total);
        lemma_small_mod((t - k + total) as nat, total as nat);
    }
}

/// Advancing a well-formed clock by any `dt >= 0` and then rewinding by the
/// same amount restores the starting clock state exactly.
pub proof fn lemma_advance_inverse(m: RhythmModel, dt: int)
    requires
        m.wf(),
        0 <= dt,
    ensures
        m.advanced(dt).advanced(-dt) == m,
{
    let total = m.total();
    let u = (m.time + dt) % total;
    lemma_mod_bound(m.time + dt, total);
    lemma_fundamental_div_mod(m.time + dt, total);
    // m.time + dt == total * q + u, hence u - dt == m.time - total * q
    let q = (m.time + dt) / total;
    assert(total * (-q) == -(total * q)) by (nonlinear_arith);
    lemma_mod_multiples_vanish(-q, m.time, total);
    lemma_small_mod(m.time as nat, total as nat);
    assert(m.advanced(dt).advanced(-dt) =~= m);
}

impl Clone for Rhythm {
    /// A deep copy with the same mathematical state.
    fn clone(&self) -> (r: Rhythm)
        ensures
            r@ == self@,
    {
        let n = self.beats.len();
        let mut beats: Vec<usize> = Vec::new();
        let mut i: usize = 0;
        while i < n
            invariant
                n == self.beats.len(),
                i <= n,
                beats@ == self.beats@.subrange(0, i as int),
            decreases n - i,
        {
            beats.push(self.beats[i]);
            proof {
                assert(beats@ =~= self.beats@.subrange(0, i + 1));
            }
            i = i + 1;
        }
        proof {
            assert(beats@ =~= self.beats@);
        }
        Rhythm { length: self.length, beats, duration: self.duration, time: self.time }
    }
}

impl Rhythm {
    /// A clock for a `length`-beat measure at `tempo` beats per minute,
    /// accepting the given beats, starting at the beginning of the measure.
    pub fn new(length: usize, tempo: u32, beats: Vec<usize>) -> (r: Rhythm)
        requires
            1 <= length,
            1 <= tempo <= MINUTE_US,
            MINUTE_US * length <= i64::MAX,
            forall|i: int| 0 <= i < beats@.len() ==> #[trigger] beats@[i] < length,
        ensures
            r@.length == length,
            r@.duration == beat_length_spec(tempo as int),
            r@.time == 0,
            r@.beats == beats@.map_values(|b: usize| b as int),
            r@.wf(),
    {
        let duration = beat_length(tempo);
        let r = Rhythm { length, duration, beats, time: 0 };
        proof {
            lemma_mul_inequality(duration as int, MINUTE_US as int, length as int);
            lemma_mul_inequality(1, duration as int, length as int);
            assert forall|i: int| 0 <= i < r@.beats.len() implies 0 <= #[trigger] r@.beats[i]
                < r@.length by {
                assert(r.beats@[i] < length);
            }
        }
        r
    }

    /// Advance the clock by `delta` microseconds; negative `delta` rewinds.
    /// The elapsed time always wraps back into the current measure.
    #[verifier::rlimit(30)]
    pub fn update(&mut self, delta: i64)
        requires
            old(self)@.wf(),
        ensures
            final(self)@ == old(self)@.advanced(delta as int),
            final(self)@.wf(),
    {
        let total: u64 = self.duration * (self.length as u64);
        if delta >= 0 {
            let k: u64 = (delta as u64) % total;
            proof {
                lemma_wrap_add(self.time as int, delta as int, total as int);
            }
            self.time = if self.time >= total - k {
                self.time - (total - k)
            } else {
                self.time + k
            };
        } else {
            let mag: u64 = if delta == i64::MIN {
                9_223_372_036_854_775_808u64
            } else {
                (-delta) as u64
            };
            let k: u64 = mag % total;
            proof {
                lemma_wrap_sub(self.time as int, mag as int, total as int);
            }
            self.time = if self.time >= k {
                self.time - k
            } else {
                self.time + (total - k)
            };
        }
        proof {
            assert(self@ =~= old(self)@.advanced(delta as int));
            assert(self@.wf());
        }
    }

    /// Whether two clocks have the same mathematical state: the same
    /// measure, tempo, elapsed time and accepted beats.
    pub fn same_state(&self, other: &Rhythm) -> (r: bool)
        ensures
            r == (self@ == other@),
    {
        if self.length != other.length || self.duration != other.duration
            || self.time != other.time || self.beats.len() != other.beats.len() {
            proof {
                if self.beats@.len() != other.beats@.len() {
                    assert(self@.beats.len() != other@.beats.len());
                }
            }
            return false;
        }
        let n = self.beats.len();
        let mut i: usize = 0;
        while i < n
            invariant
                n == self.beats.len(),
                n == other.beats.len(),
                forall|j: int| 0 <= j < i ==> self@.beats[j] == other@.beats[j],
            decreases n - i,
        {
            if self.beats[i] != other.beats[i] {
                proof {
                    assert(self@.beats[i as int] != other@.beats[i as int]);
                }
                return false;
            }
            i = i + 1;
        }
        proof {
            assert(self@.beats =~= other@.beats);
        }
        true
    }

    /// Set the elapsed time back to the beginning of the measure.
    pub fn reset(&mut self)
        ensures
            final(self)@ == old(self)@.restarted(),
    {
        self.time = 0;
    }

    /// Rebind the clock to a new tempo, keeping the accepted beats; the
    /// elapsed time re-wraps into the new measure length.
    pub fn set_tempo(&mut self, tempo: u32)
        requires
            old(self)@.wf(),
            1 <= tempo <= MINUTE_US,
            MINUTE_US * old(self)@.length <= i64::MAX,
        ensures
            final(self)@ == old(self)@.with_duration(beat_length_spec(tempo as int)),
            final(self)@.wf(),
    {
        self.duration = beat_length(tempo);
        proof {
            lemma_mul_inequality(self.duration as int, MINUTE_US as int, self.length as int);
            lemma_mul_inequality(1, self.duration as int, self.length as int);
        }
        let total: u64 = self.duration * (self.length as u64);
        proof {
            lemma_mod_bound(self.time as int, total as int);
        }
        self.time = self.time % total;
        proof {
            assert(self@ =~= old(self)@.with_duration(beat_length_spec(tempo as int)));
            assert(self@.wf());
        }
    }

    /// Number of beats in a measure.
    pub fn length(&self) -> (r: usize)
        ensures
            r == self@.length,
    {
        self.length
    }

    /// Length of one beat, in microseconds.
    pub fn duration(&self) -> (r: u64)
        ensures
            r == self@.duration,
    {
        self.duration
    }

    /// The elapsed time within the current measure, in microseconds.
    pub fn position(&self) -> (r: u64)
        ensures
            r == self@.time,
    {
        self.time
    }

    /// Index of the beat the clock currently is in.
    pub fn beat(&self) -> (r: u64)
        requires
            self@.wf(),
        ensures
            r == self@.beat_index(),
            r < self@.length,
    {
        proof {
            lemma_multiply_divide_lt(self.time as int, self.duration as int, self.length as int);
        }
        self.time / self.duration
    }

    /// Whether the current beat is one of the accepted beats.
    pub fn on(&self) -> (r: bool)
        requires
            self@.wf(),
        ensures
            r == self@.is_on(),
    {
        let b = self.beat();
        let n = self.beats.len();
        let mut i: usize = 0;
        while i < n
            invariant
                n == self.beats.len(),
                b == self@.beat_index(),
                forall|j: int| 0 <= j < i ==> self@.beats[j] != b,
            decreases n - i,
        {
            if self.beats[i] as u64 == b {
                proof {
                    assert(self@.beats[i as int] == self@.beat_index());
                }
                return true;
            }
            i = i + 1;
        }
        false
    }

    /// Forward cyclic distance from the start of beat `b` to the current
    /// position, for a beat of this measure.
    fn fwd_dist(&self, b: usize, total: u64) -> (r: u64)
        requires
            self@.wf(),
            b < self.length,
            total == self@.total(),
        ensures
            r == self@.fwd_dist(b as int),
            r < total,
    {
        proof {
            assert((b as int) * self.duration <= self@.total() - self.duration)
                by (nonlinear_arith)
                requires
                    b as int <= self.length as int - 1,
                    1 <= self.duration,
                    self@.total() == self.duration * self.length,
            {
            }
            lemma_wrap_sub(self.time as int, (b as int) * self.duration, total as int);
            lemma_small_mod(((b as int) * self.duration) as nat, total as nat);
        }
        let c: u64 = (b as u64) * self.duration;
        if self.time >= c {
            self.time - c
        } else {
            self.time + (total - c)
        }
    }

    /// Whether some accepted beat starts within `window` microseconds of
    /// the current position, in either cyclic direction.
    pub fn in_window(&self, window: u64) -> (r: bool)
        requires
            self@.wf(),
        ensures
            r == self@.in_window(window as int),
    {
        let total: u64 = self.duration * (self.length as u64);
        let n = self.beats.len();
        let mut i: usize = 0;
        while i < n
            invariant
                self@.wf(),
                n == self.beats.len(),
                total == self@.total(),
                forall|j: int| 0 <= j < i ==> !self@.near_beat_start(#[trigger] self@.beats[j], window as int),
            decreases n - i,
        {
            let b = self.beats[i];
            proof {
                assert(0 <= self@.beats[i as int] < self@.length);
            }
            let fwd = self.fwd_dist(b, total);
            if fwd < window || total - fwd < window {
                assert(self@.near_beat_start(self@.beats[i as int], window as int));
                return true;
            }
            i = i + 1;
        }
        false
    }

    /// Whether some accepted beat is active, about to become active within
    /// `window` microseconds, or was active less than `window` ago.
    pub fn on_beat(&self, window: u64) -> (r: bool)
        requires
            self@.wf(),
        ensures
            r == self@.on_beat(window as int),
    {
        let total: u64 = self.duration * (self.length as u64);
        let n = self.beats.len();
        let mut i: usize = 0;
        while i < n
            invariant
                self@.wf(),
                n == self.beats.len(),
                total == self@.total(),
                forall|j: int| 0 <= j < i ==> !self@.within_beat_span(#[trigger] self@.beats[j], window as int),
            decreases n - i,
        {
            let b = self.beats[i];
            proof {
                assert(0 <= self@.beats[i as int] < self@.length);
            }
            let fwd = self.fwd_dist(b, total);
            if (fwd as u128) < (self.duration as u128) + (window as u128)
                || (fwd as u128) + (window as u128) >= (total as u128) {
                assert(self@.within_beat_span(self@.beats[i as int], window as int));
                return true;
            }
            i = i + 1;
        }
        false
    }
}

} // verus!
