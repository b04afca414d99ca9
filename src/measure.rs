use vstd::prelude::*;
use vstd::arithmetic::power::{pow, lemma_pow_positive, lemma_pow_increases};
use vstd::arithmetic::div_mod::{
    lemma_div_is_ordered_by_denominator,
    lemma_multiply_divide_lt,
    lemma_div_multiples_vanish_fancy,
};
use vstd::arithmetic::mul::lemma_mul_inequality;
use crate::quant::Quant;
use crate::midi::{AbsMidiEvent, TypedMidiMessage};

verus! {

/// A recorded message placed on the rhythmic grid.
#[derive(Clone, Copy, Debug, PartialEq, Eq, Structural)]
pub struct QuantMidiEvent {
    pub message: TypedMidiMessage,
    pub quant: Quant,
}

/// Tempo, time signature and quantization depth; converts between
/// milliseconds, quants and measure indices.
#[derive(Clone, Copy, Debug, PartialEq, Eq, Structural)]
pub struct Measure {
    pub tempo_bpm: u32,
    pub measure_size_bpm: u32,
    pub quantation_level: u32,
}

/// Largest value of a `u32`, as an integer.
pub open spec fn u32_max() -> int {
    0xffff_ffff
}

/// Milliseconds from the first to the last event of a buffer; zero for fewer than
/// two events, or when the last event is stamped before the first.
pub open spec fn buffer_span(buffer: Seq<AbsMidiEvent>) -> int {
    if buffer.len() == 0 {
        0
    } else if buffer.last().timestamp >= buffer[0].timestamp {
        buffer.last().timestamp - buffer[0].timestamp
    } else {
        0
    }
}

/// A product of two 32-bit values, one of them possibly one past the largest,
/// fits in 64 bits.
pub proof fn lemma_product_fits_u64(a: int, b: int)
    requires
        0 <= a <= u32_max() + 1,
        0 <= b <= u32_max(),
    ensures
        0 <= a * b <= 0xffff_ffff_0000_0000,
{
    assert(0 <= a * b <= (u32_max() + 1) * u32_max()) by (nonlinear_arith)
        requires 0 <= a <= u32_max() + 1, 0 <= b <= u32_max();
}

proof fn lemma_pow_step(b: int, e: nat)
    ensures
        pow(b, e + 1) == b * pow(b, e),
        pow(b, 0) == 1,
{
    reveal(pow);
}

proof fn lemma_beat_bounds(tempo: int)
    requires
        0 < tempo <= 60000,
    ensures
        1 <= 60000int / tempo <= 60000,
{
    lemma_div_is_ordered_by_denominator(60000, tempo, 60000);
    lemma_div_is_ordered_by_denominator(60000, 1, tempo);
}

impl Measure {
    /// Length of one beat in milliseconds, truncated.
    pub open spec fn beat_ms(self) -> int {
        60000int / (self.tempo_bpm as int)
    }

    /// Length of one measure in milliseconds.
    pub open spec fn measure_ms(self) -> int {
        self.beat_ms() * self.measure_size_bpm
    }

    /// Number of quants in one measure: the beats per measure raised to the quantization level.
    pub open spec fn quants(self) -> int {
        pow(self.measure_size_bpm as int, self.quantation_level as nat)
    }

    /// Length of one quant in milliseconds, truncated and never below one.
    pub open spec fn quant_ms(self) -> int {
        let q = self.measure_ms() / self.quants();
        if q < 1 { 1 } else { q }
    }

    /// The nearest quant to a timestamp, halves rounded up.
    pub open spec fn snap(self, timestamp: int) -> int {
        (timestamp + self.quant_ms() / 2) / self.quant_ms()
    }

    /// Number of whole measures a span of `span` milliseconds reaches into, at least one.
    pub open spec fn measures_spanned(self, span: int) -> int {
        if span <= 0 { 1 } else { (span + self.measure_ms() - 1) / self.measure_ms() }
    }

    /// The parameters give positive, representable lengths: a positive tempo of at
    /// most one beat per millisecond, a positive signature, and a measure length and
    /// a quant count that fit in 32 bits.
    /// A recorded event snapped to the grid and folded into a take of `length` quants.
    pub open spec fn quantized(self, event: AbsMidiEvent, length: int) -> QuantMidiEvent {
        QuantMidiEvent { message: event.message, quant: Quant((self.snap(event.timestamp as int) % length) as u32) }
    }

    /// The number of measures that a recorded buffer covers.
    pub open spec fn measures_in(self, buffer: Seq<AbsMidiEvent>) -> int {
        self.measures_spanned(buffer_span(buffer))
    }

    /// A timestamp rescaled from a cycle of `amount` measures of `self` to one of `new_measure`.
    pub open spec fn scaled_cursor(self, new_measure: Measure, amount: int, cursor: int) -> int {
        cursor * (amount * new_measure.measure_ms()) / (amount * self.measure_ms())
    }

    pub open spec fn wf(self) -> bool {
        &&& 0 < self.tempo_bpm <= 60000
        &&& 0 < self.measure_size_bpm
        &&& self.measure_ms() <= u32_max()
        &&& self.quants() <= u32_max()
    }

    /// The lengths that a valid measure gives are positive and fit in 32 bits.
    pub proof fn lemma_wf_bounds(self)
        requires
            self.wf(),
        ensures
            1 <= self.beat_ms() <= 60000,
            1 <= self.measure_ms() <= u32_max(),
            1 <= self.quants() <= u32_max(),
            1 <= self.quant_ms() <= self.measure_ms(),
    {
        lemma_pow_positive(self.measure_size_bpm as int, self.quantation_level as nat);
        lemma_beat_bounds(self.tempo_bpm as int);
        lemma_mul_inequality(1, self.beat_ms(), self.measure_size_bpm as int);
        lemma_mul_inequality(1, self.measure_size_bpm as int, self.beat_ms());
        assert(self.measure_ms() >= 1);
        let q = self.measure_ms() / self.quants();
        lemma_div_is_ordered_by_denominator(self.measure_ms(), 1, self.quants());
    }

    pub fn new(tempo_bpm: u32, measure_size_bpm: u32, quantation_level: u32) -> (r: Measure)
        ensures
            r.tempo_bpm == tempo_bpm,
            r.measure_size_bpm == measure_size_bpm,
            r.quantation_level == quantation_level,
    {
        Measure { tempo_bpm, measure_size_bpm, quantation_level }
    }

    pub fn tempo_bpm(&self) -> (r: u32)
        ensures
            r == self.tempo_bpm,
    {
        self.tempo_bpm
    }

    pub fn measure_size_bpm(&self) -> (r: u32)
        ensures
            r == self.measure_size_bpm,
    {
        self.measure_size_bpm
    }

    pub fn quantation_level(&self) -> (r: u32)
        ensures
            r == self.quantation_level,
    {
        self.quantation_level
    }

    pub fn update_tempo_bpm(&mut self, tempo_bpm: u32)
        ensures
            *final(self) == (Measure { tempo_bpm, ..*old(self) }),
    {
        self.tempo_bpm = tempo_bpm;
    }

    pub fn update_measure_size_bpm(&mut self, measure_size_bpm: u32)
        ensures
            *final(self) == (Measure { measure_size_bpm, ..*old(self) }),
    {
        self.measure_size_bpm = measure_size_bpm;
    }

    pub fn update_quantation_level(&mut self, quantation_level: u32)
        ensures
            *final(self) == (Measure { quantation_level, ..*old(self) }),
    {
        self.quantation_level = quantation_level;
    }

    /// Whether the parameters satisfy `wf`; lets callers reject a configuration.
    pub fn is_valid(&self) -> (r: bool)
        ensures
            r == self.wf(),
    {
        if self.tempo_bpm == 0 || self.tempo_bpm > 60000 || self.measure_size_bpm == 0 {
            return false;
        }
        let beat: u64 = 60000u64 / (self.tempo_bpm as u64);
        proof {
            lemma_beat_bounds(self.tempo_bpm as int);
            lemma_mul_inequality(beat as int, 60000, self.measure_size_bpm as int);
        }
        let size: u64 = beat * (self.measure_size_bpm as u64);
        if size > 0xffff_ffffu64 {
            return false;
        }
        let mut acc: u64 = 1;
        let mut i: u32 = 0;
        proof {
            lemma_pow_step(self.measure_size_bpm as int, 0);
        }
        while i < self.quantation_level
            invariant
                0 < self.measure_size_bpm,
                i <= self.quantation_level,
                acc == pow(self.measure_size_bpm as int, i as nat),
                acc <= u32_max(),
            decreases self.quantation_level - i,
        {
            proof {
                lemma_mul_inequality(acc as int, u32_max(), self.measure_size_bpm as int);
                lemma_mul_inequality(self.measure_size_bpm as int, u32_max(), u32_max());
                lemma_pow_step(self.measure_size_bpm as int, i as nat);
            }
            let next: u64 = acc * (self.measure_size_bpm as u64);
            if next > 0xffff_ffffu64 {
                proof {
                    lemma_pow_increases(self.measure_size_bpm as nat, (i + 1) as nat, self.quantation_level as nat);
                }
                return false;
            }
            acc = next;
            i = i + 1;
        }
        true
    }

    pub fn beat_size_millis(&self) -> (r: u32)
        requires
            self.wf(),
        ensures
            r == self.beat_ms(),
    {
        60000u32 / self.tempo_bpm
    }

    pub fn measure_size_millis(&self) -> (r: u32)
        requires
            self.wf(),
        ensures
            r == self.measure_ms(),
    {
        self.beat_size_millis() * self.measure_size_bpm
    }

    pub fn quants_per_measure(&self) -> (r: Quant)
        requires
            self.wf(),
        ensures
            r.0 == self.quants(),
    {
        let mut acc: u32 = 1;
        let mut i: u32 = 0;
        proof {
            lemma_pow_step(self.measure_size_bpm as int, 0);
        }
        while i < self.quantation_level
            invariant
                self.wf(),
                i <= self.quantation_level,
                acc == pow(self.measure_size_bpm as int, i as nat),
            decreases self.quantation_level - i,
        {
            proof {
                lemma_pow_step(self.measure_size_bpm as int, i as nat);
                lemma_pow_increases(self.measure_size_bpm as nat, (i + 1) as nat, self.quantation_level as nat);
            }
            acc = acc * self.measure_size_bpm;
            i = i + 1;
        }
        Quant(acc)
    }

    pub fn quant_size_millis(&self) -> (r: u32)
        requires
            self.wf(),
        ensures
            r == self.quant_ms(),
    {
        proof {
            self.lemma_wf_bounds();
        }
        let q = self.measure_size_millis() / self.quants_per_measure().0;
        if q < 1 {
            1
        } else {
            q
        }
    }

    /// Snaps the timestamp to the closest quant.
    pub fn snap_timestamp_to_quant(&self, timestamp: u32) -> (r: Quant)
        requires
            self.wf(),
        ensures
            r.0 == self.snap(timestamp as int),
    {
        proof {
            self.lemma_wf_bounds();
        }
        let qs = self.quant_size_millis() as u64;
        let r = ((timestamp as u64) + qs / 2) / qs;
        proof {
            let t = timestamp as int;
            let q = qs as int;
            let h = q / 2;
            assert(t + h < q * (t + 1)) by (nonlinear_arith)
                requires t >= 0, q >= 1, 0 <= h < q;
            lemma_multiply_divide_lt(t + h, q, t + 1);
        }
        Quant(r as u32)
    }

    /// The quant that a timestamp falls in, rounded down.
    pub fn timestamp_to_quant(&self, timestamp: u32) -> (r: Quant)
        requires
            self.wf(),
        ensures
            r.0 == timestamp as int / self.quant_ms(),
    {
        Quant(timestamp / self.quant_size_millis())
    }

    /// The start time of a quant, in milliseconds.
    pub fn quant_to_timestamp(&self, quant: Quant) -> (r: u32)
        requires
            self.wf(),
            quant.0 * self.quant_ms() <= u32_max(),
        ensures
            r == quant.0 * self.quant_ms(),
    {
        quant.0 * self.quant_size_millis()
    }

    /// The measure that a timestamp falls in, counted from zero.
    pub fn timestamp_to_measure(&self, timestamp: u32) -> (r: u32)
        requires
            self.wf(),
        ensures
            r == timestamp as int / self.measure_ms(),
    {
        proof {
            self.lemma_wf_bounds();
        }
        timestamp / self.measure_size_millis()
    }

    /// Number of measures a recorded buffer covers: the span from its first to its
    /// last event divided by the measure length, rounded up, and at least one.
    pub fn amount_of_measures_in_buffer(&self, buffer: &[AbsMidiEvent]) -> (r: u32)
        requires
            self.wf(),
        ensures
            r == self.measures_in(buffer@),
            1 <= r,
    {
        proof {
            self.lemma_wf_bounds();
        }
        let n = buffer.len();
        let span: u32 = if n > 0 && buffer[n - 1].timestamp >= buffer[0].timestamp {
            buffer[n - 1].timestamp - buffer[0].timestamp
        } else {
            0
        };
        if span == 0 {
            1
        } else {
            let ms = self.measure_size_millis() as u64;
            let r = ((span as u64) + ms - 1) / ms;
            proof {
                let s = span as int;
                let m = ms as int;
                assert(s + m - 1 < m * (s + 1)) by (nonlinear_arith)
                    requires s >= 1, m >= 1;
                lemma_multiply_divide_lt(s + m - 1, m, s + 1);
                assert(s + m - 1 >= m * 1);
                lemma_div_is_ordered_by_denominator(m, 1, m);
                assert(m / m == 1) by (nonlinear_arith) requires m >= 1;
                lemma_div_is_ordered_by_denominator(s + m - 1, m, m);
                vstd::arithmetic::div_mod::lemma_div_is_ordered(m, s + m - 1, m);
            }
            r as u32
        }
    }

    /// Snaps every event of a recorded buffer to the grid, folded into the take's
    /// length of `amount_of_measures_in_buffer(buffer) * quants_per_measure()` quants.
    pub fn quantize_buffer(&self, buffer: &[AbsMidiEvent]) -> (r: Vec<QuantMidiEvent>)
        requires
            self.wf(),
            self.measures_in(buffer@) * self.quants() <= u32_max(),
        ensures
            r@.len() == buffer@.len(),
            forall|i: int|
                0 <= i < buffer@.len() ==> #[trigger] r@[i] == self.quantized(
                    buffer@[i],
                    self.measures_in(buffer@) * self.quants(),
                ),
    {
        proof {
            self.lemma_wf_bounds();
        }
        let amount = self.amount_of_measures_in_buffer(buffer);
        let length = amount * self.quants_per_measure().0;
        proof {
            lemma_mul_inequality(1, amount as int, self.quants());
        }
        let mut r: Vec<QuantMidiEvent> = Vec::new();
        let mut i: usize = 0;
        while i < buffer.len()
            invariant
                self.wf(),
                length == self.measures_in(buffer@) * self.quants(),
                length >= 1,
                i <= buffer@.len(),
                r@.len() == i,
                forall|j: int| 0 <= j < i ==> #[trigger] r@[j] == self.quantized(buffer@[j], length as int),
            decreases buffer@.len() - i,
        {
            let event = buffer[i];
            let q = self.snap_timestamp_to_quant(event.timestamp);
            r.push(QuantMidiEvent { message: event.message, quant: q % Quant(length) });
            i = i + 1;
        }
        r
    }

    /// Rescales a time cursor from a cycle of `amount_of_measures` measures of this
    /// measure to one of `new_measure`, so that the musical position is kept.
    pub fn scale_time_cursor(&self, new_measure: &Measure, amount_of_measures: u32, time_cursor: u32) -> (r: u32)
        requires
            self.wf(),
            new_measure.wf(),
            amount_of_measures >= 1,
            self.scaled_cursor(*new_measure, amount_of_measures as int, time_cursor as int) <= u32_max(),
        ensures
            r == self.scaled_cursor(*new_measure, amount_of_measures as int, time_cursor as int),
    {
        proof {
            self.lemma_wf_bounds();
            new_measure.lemma_wf_bounds();
        }
        let old_ms = self.measure_size_millis() as u64;
        let new_ms = new_measure.measure_size_millis() as u64;
        proof {
            lemma_mul_inequality(time_cursor as int, u32_max(), new_ms as int);
            lemma_mul_inequality(new_ms as int, u32_max(), u32_max());
        }
        let r = (time_cursor as u64) * new_ms / old_ms;
        proof {
            let x = amount_of_measures as int;
            let a = time_cursor as int * new_ms as int;
            let d = old_ms as int;
            vstd::arithmetic::div_mod::lemma_div_multiples_vanish_quotient(x, a, d);
            let c = time_cursor as int;
            let nm = new_ms as int;
            assert(x * a == c * (x * nm)) by (nonlinear_arith)
                requires a == c * nm;
        }
        r as u32
    }
}

/// The quant grid tiles a measure up to rounding: one quant length times the
/// number of quants differs from the measure length by less than the number of quants.
pub proof fn lemma_quant_grid_covers_measure(m: Measure)
    requires
        m.wf(),
    ensures
        m.measure_ms() - m.quants() < m.quant_ms() * m.quants() < m.measure_ms() + m.quants(),
{
    m.lemma_wf_bounds();
    let ms = m.measure_ms();
    let qn = m.quants();
    let q = ms / qn;
    vstd::arithmetic::div_mod::lemma_fundamental_div_mod(ms, qn);
    vstd::arithmetic::div_mod::lemma_mod_bound(ms, qn);
    if q < 1 {
        assert(q == 0);
        assert(qn * q == 0) by (nonlinear_arith) requires q == 0;
        assert(ms < qn);
    } else {
        assert(q * qn == qn * q) by (nonlinear_arith);
    }
}

/// Placing a quant of the first measure at its start time and snapping that time
/// back to the grid gives the same quant.
pub proof fn lemma_snap_after_quant_to_timestamp(m: Measure, q: int)
    requires
        m.wf(),
        0 <= q < m.quants(),
    ensures
        m.snap(q * m.quant_ms()) == q,
{
    m.lemma_wf_bounds();
    let qs = m.quant_ms();
    assert(q * qs == qs * q) by (nonlinear_arith);
    lemma_div_multiples_vanish_fancy(q, qs / 2, qs);
}

/// An empty buffer, or one with a single event, covers one measure.
pub proof fn lemma_short_buffer_covers_one_measure(m: Measure, buffer: Seq<AbsMidiEvent>)
    requires
        m.wf(),
        buffer.len() <= 1,
    ensures
        m.measures_in(buffer) == 1,
{
}

/// A buffer whose events span one millisecond less than `n` measures covers `n`
/// measures, when a measure lasts at least two milliseconds.
pub proof fn lemma_buffer_covers_n_measures(m: Measure, buffer: Seq<AbsMidiEvent>, n: int)
    requires
        m.wf(),
        m.measure_ms() >= 2,
        n >= 1,
        buffer.len() >= 1,
        buffer.last().timestamp - buffer[0].timestamp == n * m.measure_ms() - 1,
    ensures
        m.measures_in(buffer) == n,
{
    m.lemma_wf_bounds();
    let ms = m.measure_ms();
    assert(n * ms >= ms) by (nonlinear_arith)
        requires n >= 1, ms >= 2;
    assert(buffer_span(buffer) == n * ms - 1);
    assert(n * ms - 1 + ms - 1 == ms * n + (ms - 2)) by (nonlinear_arith);
    lemma_div_multiples_vanish_fancy(n, ms - 2, ms);
}

/// Rescaling a cursor to a new tempo keeps its position in the cycle up to
/// rounding: the new position over the new cycle length is at most the old
/// position over the old cycle length, and less than one millisecond behind it.
pub proof fn lemma_scaled_cursor_keeps_position(old_measure: Measure, new_measure: Measure, amount: int, cursor: int)
    requires
        old_measure.wf(),
        new_measure.wf(),
        amount >= 1,
        cursor >= 0,
    ensures
        ({
            let s = old_measure.scaled_cursor(new_measure, amount, cursor);
            let old_cycle = amount * old_measure.measure_ms();
            let new_cycle = amount * new_measure.measure_ms();
            s * old_cycle <= cursor * new_cycle < (s + 1) * old_cycle
        }),
{
    old_measure.lemma_wf_bounds();
    new_measure.lemma_wf_bounds();
    let old_cycle = amount * old_measure.measure_ms();
    let new_cycle = amount * new_measure.measure_ms();
    lemma_mul_inequality(1, amount, old_measure.measure_ms());
    let x = cursor * new_cycle;
    let s = x / old_cycle;
    vstd::arithmetic::div_mod::lemma_fundamental_div_mod(x, old_cycle);
    vstd::arithmetic::div_mod::lemma_mod_bound(x, old_cycle);
    assert(s * old_cycle == old_cycle * s) by (nonlinear_arith);
    assert((s + 1) * old_cycle == old_cycle * s + old_cycle) by (nonlinear_arith);
}

} // verus!
