use vstd::prelude::*;
use crate::arith::{lcm, lcm_all, lcm_u32, lemma_lcm_all_prefix, lemma_lcm_at_least_left};
use crate::measure::{Measure, u32_max, lemma_product_fits_u64};
use crate::midi::{AbsMidiEvent, SinkCommand, TypedMidiMessage};
use crate::quant::Quant;
use crate::sample::{Sample, SampleData, copy_events};

verus! {

/// Channel of the metronome and of the reserved control messages.
pub const CONTROL_CHANNEL_NUMBER: u8 = 9;
/// Key of the metronome click.
pub const BEAT_KEY_NUMBER: u8 = 62;
/// Velocity of an ordinary metronome click.
pub const BEAT_VELOCITY: u8 = 60;
/// Velocity of the click on the first beat of a measure.
pub const BEAT_ACCENT_VELOCITY: u8 = 100;
/// Key whose note-on, on the control channel, toggles recording.
pub const CONTROL_KEY_NUMBER: u8 = 51;
/// Controller whose value sets the tempo.
pub const TEMPO_CHANGE_CONTROL_NUMBER: u8 = 21;
/// Tempo set by a tempo control value of zero.
pub const TEMPO_CHANGE_BASE_BPM: u32 = 90;
/// Tempo of a new looper.
pub const DEFAULT_TEMPO_BPM: u32 = 120;
/// Beats per measure of a new looper.
pub const DEFAULT_MEASURE_SIZE_BPM: u32 = 4;
/// Quantization depth of a new looper.
pub const DEFAULT_QUANTATION_LEVEL: u32 = 2;

/// What the looper is doing.
#[derive(Clone, Copy, Debug, PartialEq, Eq, Structural)]
pub enum State {
    Recording,
    Looping,
    Pause,
}

/// A composition in stored form: the measure and every take.
#[derive(Debug)]
pub struct CompositionData {
    pub samples: Vec<SampleData>,
    pub measure: Measure,
}

/// Why a stored composition was refused.
#[derive(Clone, Copy, Debug, PartialEq, Eq, Structural)]
pub enum LoadError {
    /// The measure does not satisfy `Measure::wf`.
    InvalidMeasure,
    /// A take's parts do not fit together.
    InvalidSample,
    /// The full cycle of the takes is longer than a 32-bit millisecond count.
    CycleTooLong,
}

/// Records, overdubs and replays takes against a shared cycle; what it plays is
/// queued as sink commands for the caller to perform.
pub struct Looper {
    state: State,
    next_state: Option<State>,
    composition: Vec<Sample>,
    record_buffer: Vec<AbsMidiEvent>,
    output: Vec<SinkCommand>,
    time_cursor: u32,
    amount_of_measures: u32,
    measure: Measure,
}

/// The looper's state as mathematical values.
pub struct LooperView {
    pub state: State,
    pub next_state: Option<State>,
    pub composition: Seq<Sample>,
    pub record_buffer: Seq<AbsMidiEvent>,
    pub output: Seq<SinkCommand>,
    pub time_cursor: u32,
    pub amount_of_measures: u32,
    pub measure: Measure,
}

impl View for Looper {
    type V = LooperView;

    closed spec fn view(&self) -> LooperView {
        LooperView {
            state: self.state,
            next_state: self.next_state,
            composition: self.composition@,
            record_buffer: self.record_buffer@,
            output: self.output@,
            time_cursor: self.time_cursor,
            amount_of_measures: self.amount_of_measures,
            measure: self.measure,
        }
    }
}

/// The length in measures of each take.
pub open spec fn amounts(composition: Seq<Sample>) -> Seq<nat> {
    composition.map_values(|s: Sample| s.amount_of_measures as nat)
}

/// A recorded buffer shifted in time so that its first event is at zero; an event
/// stamped before the first is placed at zero too.
pub open spec fn normalized(buffer: Seq<AbsMidiEvent>) -> Seq<AbsMidiEvent> {
    Seq::new(
        buffer.len(),
        |i: int|
            AbsMidiEvent {
                message: buffer[i].message,
                timestamp: if buffer[i].timestamp >= buffer[0].timestamp {
                    (buffer[i].timestamp - buffer[0].timestamp) as u32
                } else {
                    0
                },
            },
    )
}

/// Event `j` of the metronome of `m`: for each beat a note-on at the start of the
/// beat, accented on the first beat, and a note-off one millisecond later.
pub open spec fn metronome_event(m: Measure, j: int) -> AbsMidiEvent {
    let beat = j / 2;
    if j % 2 == 0 {
        AbsMidiEvent {
            message: TypedMidiMessage::NoteOn {
                channel: CONTROL_CHANNEL_NUMBER,
                key: BEAT_KEY_NUMBER,
                velocity: if beat == 0 { BEAT_ACCENT_VELOCITY } else { BEAT_VELOCITY },
            },
            timestamp: (beat * m.beat_ms()) as u32,
        }
    } else {
        AbsMidiEvent {
            message: TypedMidiMessage::NoteOff { channel: CONTROL_CHANNEL_NUMBER, key: BEAT_KEY_NUMBER, velocity: 0 },
            timestamp: (beat * m.beat_ms() + 1) as u32,
        }
    }
}

/// The metronome's recording: two events for each beat of one measure.
pub open spec fn metronome_buffer(m: Measure) -> Seq<AbsMidiEvent> {
    Seq::new((2 * m.measure_size_bpm) as nat, |j: int| metronome_event(m, j))
}

/// What replaying quant `q` of the cycle emits, take after take.
pub open spec fn replay_all(composition: Seq<Sample>, q: int) -> Seq<SinkCommand>
    decreases composition.len(),
{
    if composition.len() == 0 {
        Seq::empty()
    } else {
        replay_all(composition.drop_last(), q) + composition.last().due(q)
    }
}

/// What replaying every quant after `from` up to and including `to` emits, quant after quant.
pub open spec fn replay_span(composition: Seq<Sample>, from: int, to: int) -> Seq<SinkCommand>
    decreases to - from,
{
    if to <= from {
        Seq::empty()
    } else {
        replay_span(composition, from, to - 1) + replay_all(composition, to)
    }
}

/// `data` is the stored form of `sample`.
pub open spec fn stores(data: SampleData, sample: Sample) -> bool {
    &&& data.buffer@ == sample.buffer@
    &&& data.amount_of_measures == sample.amount_of_measures
    &&& data.measure_shift == sample.measure_shift
    &&& data.quants_per_measure == sample.quants_per_measure.0
}

/// Each stored take is the stored form of the take at the same position.
pub open spec fn stores_all(data: Seq<SampleData>, composition: Seq<Sample>) -> bool {
    &&& data.len() == composition.len()
    &&& forall|i: int| 0 <= i < data.len() ==> stores(#[trigger] data[i], composition[i])
}

/// The length in measures of each stored take.
pub open spec fn stored_amounts(data: Seq<SampleData>) -> Seq<nat> {
    data.map_values(|d: SampleData| d.amount_of_measures as nat)
}

/// Every stored take's parts fit together.
pub open spec fn all_valid(data: Seq<SampleData>) -> bool {
    forall|i: int| 0 <= i < data.len() ==> (#[trigger] data[i]).valid()
}

/// A stored composition can be loaded: a valid measure, valid takes, and a
/// cycle that fits in a 32-bit millisecond count.
pub open spec fn loadable(measure: Measure, data: Seq<SampleData>) -> bool {
    &&& measure.wf()
    &&& all_valid(data)
    &&& lcm_all(stored_amounts(data)) * measure.measure_ms() <= u32_max()
}

impl LooperView {
    /// Length of the full cycle in milliseconds.
    pub open spec fn cycle_ms(self) -> int {
        self.amount_of_measures * self.measure.measure_ms()
    }

    /// The measure is valid, every take is well formed, the cycle length in
    /// measures is the least common multiple of the takes' lengths, the cycle
    /// fits in a 32-bit millisecond count, and the cursor lies inside it.
    pub open spec fn inv(self) -> bool {
        &&& self.measure.wf()
        &&& forall|i: int| 0 <= i < self.composition.len() ==> (#[trigger] self.composition[i]).wf()
        &&& self.amount_of_measures == lcm_all(amounts(self.composition))
        &&& 1 <= self.amount_of_measures
        &&& self.cycle_ms() <= u32_max()
        &&& self.time_cursor < self.cycle_ms()
    }

    /// The effect of toggling recording: punch-in is immediate and empties the
    /// record buffer; punch-out is only queued for the next measure bar.
    pub open spec fn recording_toggled(self) -> LooperView {
        match self.state {
            State::Recording => LooperView { next_state: Some(State::Looping), ..self },
            State::Looping => LooperView { state: State::Recording, record_buffer: Seq::empty(), ..self },
            State::Pause => self,
        }
    }

    /// The effect of a tempo change: the measure takes the new tempo and the cursor
    /// is rescaled to keep its musical position. A tempo that gives no valid
    /// measure, or a cycle too long to count, changes nothing.
    pub open spec fn with_tempo(self, tempo_bpm: u32) -> LooperView {
        let m = Measure { tempo_bpm, ..self.measure };
        if m.wf() && self.amount_of_measures * m.measure_ms() <= u32_max() {
            LooperView {
                measure: m,
                time_cursor: self.measure.scaled_cursor(m, self.amount_of_measures as int, self.time_cursor as int) as u32,
                ..self
            }
        } else {
            self
        }
    }

    /// The effect of a measure bar: a pending state is entered, and when that
    /// state is `Looping` the recorded buffer, normalized, becomes a new take
    /// whose first measure is placed at the next bar, and the cycle grows to the
    /// least common multiple of its length and the take's. A take that would make
    /// the cycle or the take itself too long to count is dropped.
    pub open spec fn bar_transition(self, n: LooperView) -> bool {
        match self.next_state {
            None => n == self,
            Some(s) => if s != State::Looping {
                n == LooperView { state: s, next_state: None, ..self }
            } else {
                let buf = normalized(self.record_buffer);
                let take = self.measure.measures_in(buf);
                let cycle = lcm(self.amount_of_measures as nat, take as nat);
                let bar = self.time_cursor as int / self.measure.measure_ms();
                &&& n.state == State::Looping
                &&& n.next_state == None::<State>
                &&& n.record_buffer == buf
                &&& n.measure == self.measure
                &&& n.output == self.output
                &&& n.time_cursor == self.time_cursor
                &&& if cycle * self.measure.measure_ms() <= u32_max() && take * self.measure.quants() <= u32_max() {
                    &&& n.amount_of_measures == cycle
                    &&& n.composition.len() == self.composition.len() + 1
                    &&& n.composition.drop_last() == self.composition
                    &&& n.composition.last().records(buf, self.measure, cycle - bar - 1)
                } else {
                    &&& n.amount_of_measures == self.amount_of_measures
                    &&& n.composition == self.composition
                }
            },
        }
    }
}

/// A measure of the default tempo and signature.
fn default_measure() -> (r: Measure)
    ensures
        r.wf(),
        r == (Measure {
            tempo_bpm: DEFAULT_TEMPO_BPM,
            measure_size_bpm: DEFAULT_MEASURE_SIZE_BPM,
            quantation_level: DEFAULT_QUANTATION_LEVEL,
        }),
{
    let m = Measure::new(DEFAULT_TEMPO_BPM, DEFAULT_MEASURE_SIZE_BPM, DEFAULT_QUANTATION_LEVEL);
    proof {
        reveal_with_fuel(vstd::arithmetic::power::pow, 3);
        assert(m.quants() == 16);
    }
    m
}

/// The one-measure metronome take for `measure`.
fn make_metronome(measure: &Measure) -> (r: Sample)
    requires
        measure.wf(),
    ensures
        r.records(metronome_buffer(*measure), *measure, 0),
        r.amount_of_measures == 1,
{
    proof {
        measure.lemma_wf_bounds();
    }
    let beat = measure.beat_size_millis();
    let beats = measure.measure_size_bpm;
    let mut buffer: Vec<AbsMidiEvent> = Vec::new();
    let mut i: u32 = 0;
    while i < beats
        invariant
            measure.wf(),
            beat == measure.beat_ms(),
            beats == measure.measure_size_bpm,
            1 <= beat,
            i <= beats,
            buffer@.len() == 2 * i,
            forall|j: int| 0 <= j < 2 * i ==> #[trigger] buffer@[j] == metronome_event(*measure, j),
        decreases beats - i,
    {
        proof {
            vstd::arithmetic::mul::lemma_mul_inequality(i as int + 1, beats as int, beat as int);
            assert(beats * beat == measure.measure_ms()) by (nonlinear_arith)
                requires beats == measure.measure_size_bpm, beat == measure.beat_ms(),
                    measure.measure_ms() == measure.beat_ms() * measure.measure_size_bpm;
            assert(i * beat + beat == (i + 1) * beat) by (nonlinear_arith);
        }
        let t = i * beat;
        let velocity = if i == 0 { BEAT_ACCENT_VELOCITY } else { BEAT_VELOCITY };
        buffer.push(AbsMidiEvent {
            message: TypedMidiMessage::NoteOn { channel: CONTROL_CHANNEL_NUMBER, key: BEAT_KEY_NUMBER, velocity },
            timestamp: t,
        });
        buffer.push(AbsMidiEvent {
            message: TypedMidiMessage::NoteOff { channel: CONTROL_CHANNEL_NUMBER, key: BEAT_KEY_NUMBER, velocity: 0 },
            timestamp: t + 1,
        });
        proof {
            let j0 = 2 * i as int;
            assert(j0 / 2 == i && j0 % 2 == 0);
            assert((j0 + 1) / 2 == i && (j0 + 1) % 2 == 1);
            assert forall|j: int| 0 <= j < 2 * (i + 1) implies #[trigger] buffer@[j] == metronome_event(*measure, j) by {
                if j >= j0 {
                    assert(j == j0 || j == j0 + 1);
                }
            }
        }
        i = i + 1;
    }
    proof {
        let b = metronome_buffer(*measure);
        assert(buffer@ =~= b);
        let n = beats as int;
        let last = 2 * n - 1;
        assert(last / 2 == n - 1 && last % 2 == 1);
        assert(b[0].timestamp == 0);
        let ms = measure.measure_ms();
        assert((n - 1) * beat + 1 <= ms) by (nonlinear_arith)
            requires n >= 1, beat >= 1, ms == beat * n;
        assert((n - 1) * beat + 1 >= 1) by (nonlinear_arith)
            requires n >= 1, beat >= 1;
        let span = (n - 1) * beat + 1;
        assert(b.last().timestamp == span);
        vstd::arithmetic::div_mod::lemma_div_is_ordered(ms, span + ms - 1, ms);
        vstd::arithmetic::div_mod::lemma_multiply_divide_lt(span + ms - 1, ms, 2);
        assert(ms / ms == 1) by (nonlinear_arith) requires ms >= 1;
        assert(measure.measures_in(b) == 1);
        assert(1 * measure.quants() <= u32_max());
    }
    Sample::new(buffer.as_slice(), measure, 0)
}

/// The least common multiple of the lengths of the takes.
fn lcm_of_amounts(composition: &Vec<Sample>) -> (r: u32)
    requires
        forall|i: int| 0 <= i < composition@.len() ==> (#[trigger] composition@[i]).wf(),
        lcm_all(amounts(composition@)) <= u32_max(),
    ensures
        r == lcm_all(amounts(composition@)),
{
    let ghost all = amounts(composition@);
    let mut acc: u32 = 1;
    let mut i: usize = 0;
    proof {
        assert(all.take(0) =~= Seq::<nat>::empty());
    }
    while i < composition.len()
        invariant
            all == amounts(composition@),
            forall|k: int| 0 <= k < composition@.len() ==> (#[trigger] composition@[k]).wf(),
            lcm_all(all) <= u32_max(),
            i <= composition@.len(),
            acc == lcm_all(all.take(i as int)),
        decreases composition@.len() - i,
    {
        proof {
            assert forall|k: int| 0 <= k < all.len() implies all[k] >= 1 by {
                assert(composition@[k].wf());
            }
            lemma_lcm_all_prefix(all, i + 1);
            assert(all.take(i + 1).drop_last() =~= all.take(i as int));
            assert(all.take(i + 1).last() == composition@[i as int].amount_of_measures as nat);
        }
        acc = lcm_u32(acc, composition[i].amount_of_measures) as u32;
        i = i + 1;
    }
    proof {
        assert(all.take(i as int) =~= all);
    }
    acc
}

impl Looper {
    /// The looper satisfies its invariant; every operation keeps it.
    pub open spec fn wf(&self) -> bool {
        self@.inv()
    }

    /// A looper at the default measure, looping just the metronome.
    pub fn new() -> (r: Looper)
        ensures
            r.wf(),
            r@.state == State::Looping,
            r@.next_state == None::<State>,
            r@.measure == (Measure {
                tempo_bpm: DEFAULT_TEMPO_BPM,
                measure_size_bpm: DEFAULT_MEASURE_SIZE_BPM,
                quantation_level: DEFAULT_QUANTATION_LEVEL,
            }),
            r@.composition.len() == 1,
            r@.composition[0].records(metronome_buffer(r@.measure), r@.measure, 0),
            r@.record_buffer.len() == 0,
            r@.amount_of_measures == 1,
            r@.time_cursor == 0,
            r@.output == seq![SinkCommand::CloseOpenedNotes],
    {
        let mut looper = Looper {
            state: State::Looping,
            next_state: None,
            composition: Vec::new(),
            record_buffer: Vec::new(),
            output: Vec::new(),
            time_cursor: 0,
            amount_of_measures: 1,
            measure: default_measure(),
        };
        proof {
            looper.measure.lemma_wf_bounds();
            assert(amounts(looper.composition@) =~= Seq::<nat>::empty());
        }
        looper.reset();
        proof {
            assert(looper@.output =~= seq![SinkCommand::CloseOpenedNotes]);
        }
        looper
    }

    /// Starts over: only a fresh metronome take remains, the record buffer is
    /// emptied, the cursor goes back to zero and sounding notes are released.
    pub fn reset(&mut self)
        requires
            old(self).wf(),
        ensures
            final(self).wf(),
            final(self)@.state == State::Looping,
            final(self)@.next_state == old(self)@.next_state,
            final(self)@.measure == old(self)@.measure,
            final(self)@.composition.len() == 1,
            final(self)@.composition[0].records(metronome_buffer(old(self)@.measure), old(self)@.measure, 0),
            final(self)@.record_buffer.len() == 0,
            final(self)@.amount_of_measures == 1,
            final(self)@.time_cursor == 0,
            final(self)@.output == old(self)@.output.push(SinkCommand::CloseOpenedNotes),
    {
        let beats = make_metronome(&self.measure);
        self.state = State::Looping;
        self.composition = Vec::new();
        self.composition.push(beats);
        self.record_buffer = Vec::new();
        self.amount_of_measures = 1;
        self.time_cursor = 0;
        self.output.push(SinkCommand::CloseOpenedNotes);
        proof {
            self.measure.lemma_wf_bounds();
            let c = self.composition@;
            assert(c =~= seq![beats]);
            assert(amounts(c).drop_last() =~= Seq::<nat>::empty());
            assert(amounts(c).last() == 1);
            assert(lcm_all(amounts(c)) == lcm(lcm_all(amounts(c).drop_last()), amounts(c).last()));
            assert(lcm_all(Seq::<nat>::empty()) == 1);
            assert(crate::arith::gcd(1, 1) == crate::arith::gcd(1, 0));
            assert(crate::arith::gcd(1, 0) == 1);
            assert(crate::arith::gcd(1, 1) == 1);
            let g = crate::arith::gcd(1, 1);
            assert(lcm(1, 1) == 1nat * (1nat / g));
            assert(1nat * (1nat / g) == 1) by (nonlinear_arith) requires g == 1;
        }
    }

    /// Punch-in starts at once; punch-out waits for the next measure bar.
    pub fn toggle_recording(&mut self)
        requires
            old(self).wf(),
        ensures
            final(self).wf(),
            final(self)@ == old(self)@.recording_toggled(),
    {
        match self.state {
            State::Recording => {
                self.next_state = Some(State::Looping);
            },
            State::Looping => {
                self.state = State::Recording;
                self.record_buffer = Vec::new();
            },
            State::Pause => {},
        }
        proof {
            assert(self@.record_buffer =~= self.record_buffer@);
        }
    }

    /// Looping and pausing alternate; pausing releases sounding notes. No effect
    /// while recording.
    pub fn toggle_pause(&mut self)
        requires
            old(self).wf(),
        ensures
            final(self).wf(),
            old(self)@.state == State::Looping ==> final(self)@ == (LooperView {
                state: State::Pause,
                output: old(self)@.output.push(SinkCommand::CloseOpenedNotes),
                ..old(self)@
            }),
            old(self)@.state == State::Pause ==> final(self)@ == (LooperView { state: State::Looping, ..old(self)@ }),
            old(self)@.state == State::Recording ==> final(self)@ == old(self)@,
    {
        match self.state {
            State::Looping => {
                self.state = State::Pause;
                self.output.push(SinkCommand::CloseOpenedNotes);
            },
            State::Pause => {
                self.state = State::Looping;
            },
            State::Recording => {},
        }
    }

    /// While recording, drops what was recorded so far. Otherwise removes the
    /// last take, unless only one remains: the cycle becomes the least common
    /// multiple of the remaining lengths, the cursor is wrapped into it, and
    /// sounding notes are released.
    pub fn undo_last_recording(&mut self)
        requires
            old(self).wf(),
        ensures
            final(self).wf(),
            old(self)@.state == State::Recording ==> final(self)@ == (LooperView {
                record_buffer: Seq::empty(),
                ..old(self)@
            }),
            old(self)@.state != State::Recording && old(self)@.composition.len() > 1 ==> {
                let rest = old(self)@.composition.drop_last();
                let cycle = lcm_all(amounts(rest));
                final(self)@ == LooperView {
                    composition: rest,
                    amount_of_measures: cycle as u32,
                    time_cursor: (old(self)@.time_cursor as int % (cycle * old(self)@.measure.measure_ms())) as u32,
                    output: old(self)@.output.push(SinkCommand::CloseOpenedNotes),
                    ..old(self)@
                }
            },
            old(self)@.state != State::Recording && old(self)@.composition.len() <= 1 ==> final(self)@ == old(self)@,
    {
        if self.state == State::Recording {
            self.record_buffer = Vec::new();
            proof {
                assert(self@.record_buffer =~= Seq::<AbsMidiEvent>::empty());
            }
        } else if self.composition.len() > 1 {
            let ghost old_comp = self.composition@;
            self.composition.pop();
            proof {
                let rest = self.composition@;
                assert(rest =~= old_comp.drop_last());
                let all = amounts(old_comp);
                assert forall|k: int| 0 <= k < all.len() implies all[k] >= 1 by {
                    assert(old_comp[k].wf());
                }
                lemma_lcm_all_prefix(all, all.len() - 1);
                assert(all.take(all.len() - 1) =~= amounts(rest));
                self.measure.lemma_wf_bounds();
                vstd::arithmetic::mul::lemma_mul_inequality(
                    lcm_all(amounts(rest)) as int,
                    self.amount_of_measures as int,
                    self.measure.measure_ms(),
                );
                assert forall|k: int| 0 <= k < rest.len() implies (#[trigger] rest[k]).wf() by {
                    assert(rest[k] == old_comp[k]);
                }
            }
            self.amount_of_measures = lcm_of_amounts(&self.composition);
            let cycle = self.amount_of_measures * self.measure.measure_size_millis();
            proof {
                vstd::arithmetic::mul::lemma_mul_inequality(1, self.amount_of_measures as int, self.measure.measure_ms());
            }
            self.time_cursor = self.time_cursor % cycle;
            self.output.push(SinkCommand::CloseOpenedNotes);
        }
    }

    /// At a measure bar, enters the pending state, if any; when that state is
    /// `Looping`, the recorded buffer becomes a new take (see `bar_transition`).
    pub fn on_measure_bar(&mut self)
        requires
            old(self).wf(),
        ensures
            final(self).wf(),
            old(self)@.bar_transition(final(self)@),
    {
        if let Some(state) = self.next_state {
            self.next_state = None;
            self.state = state;
            if state == State::Looping {
                proof {
                    self.measure.lemma_wf_bounds();
                }
                let current_measure = self.measure.timestamp_to_measure(self.time_cursor);
                self.normalize_record_buffer();
                let take = self.measure.amount_of_measures_in_buffer(self.record_buffer.as_slice());
                let cycle = lcm_u32(self.amount_of_measures, take);
                let ms = self.measure.measure_size_millis() as u64;
                let quants = self.measure.quants_per_measure().0 as u64;
                proof {
                    lemma_product_fits_u64(take as int, quants as int);
                    lemma_lcm_at_least_left(self.amount_of_measures as nat, take as nat);
                    if cycle <= 0xffff_ffffu64 {
                        lemma_product_fits_u64(cycle as int, ms as int);
                    }
                }
                if cycle <= 0xffff_ffffu64 && cycle * ms <= 0xffff_ffffu64 && (take as u64) * quants <= 0xffff_ffffu64 {
                    proof {
                        assert(self.time_cursor < self.amount_of_measures * self.measure.measure_ms());
                        assert(self.time_cursor < ms * self.amount_of_measures) by (nonlinear_arith)
                            requires self.time_cursor < self.amount_of_measures * self.measure.measure_ms(),
                                ms == self.measure.measure_ms();
                        vstd::arithmetic::mul::lemma_mul_inequality(self.amount_of_measures as int, cycle as int, ms as int);
                        assert(self.time_cursor as int / (ms as int) < self.amount_of_measures) by {
                            vstd::arithmetic::div_mod::lemma_multiply_divide_lt(
                                self.time_cursor as int, ms as int, self.amount_of_measures as int);
                        }
                    }
                    let shift = (cycle as u32) - current_measure - 1;
                    let sample = Sample::new(self.record_buffer.as_slice(), &self.measure, shift);
                    let ghost old_comp = self.composition@;
                    self.composition.push(sample);
                    self.amount_of_measures = cycle as u32;
                    proof {
                        let c = self.composition@;
                        assert(c.drop_last() =~= old_comp);
                        assert(amounts(c).drop_last() =~= amounts(old_comp));
                        assert forall|k: int| 0 <= k < c.len() implies (#[trigger] c[k]).wf() by {
                            if k < old_comp.len() {
                                assert(c[k] == old_comp[k]);
                            }
                        }
                        vstd::arithmetic::mul::lemma_mul_inequality(self.amount_of_measures as int, cycle as int, ms as int);
                    }
                } else {
                    proof {
                        vstd::arithmetic::mul::lemma_mul_inequality(1, ms as int, cycle as int);
                    }
                }
            }
        }
    }

    /// Shifts the recorded buffer in time so that its first event is at zero.
    fn normalize_record_buffer(&mut self)
        ensures
            final(self)@ == (LooperView { record_buffer: normalized(old(self)@.record_buffer), ..old(self)@ }),
    {
        if self.record_buffer.len() > 0 {
            let t0 = self.record_buffer[0].timestamp;
            let ghost original = self.record_buffer@;
            let mut i: usize = 0;
            while i < self.record_buffer.len()
                invariant
                    original.len() > 0,
                    t0 == original[0].timestamp,
                    i <= original.len(),
                    self.record_buffer@.len() == original.len(),
                    forall|j: int| 0 <= j < i ==> #[trigger] self.record_buffer@[j] == normalized(original)[j],
                    forall|j: int| i <= j < original.len() ==> #[trigger] self.record_buffer@[j] == original[j],
                    self.state == old(self).state,
                    self.next_state == old(self).next_state,
                    self.composition@ == old(self).composition@,
                    self.output@ == old(self).output@,
                    self.time_cursor == old(self).time_cursor,
                    self.amount_of_measures == old(self).amount_of_measures,
                    self.measure == old(self).measure,
                    original == old(self).record_buffer@,
                decreases original.len() - i,
            {
                let event = self.record_buffer[i];
                let timestamp = if event.timestamp >= t0 { event.timestamp - t0 } else { 0 };
                self.record_buffer.set(i, AbsMidiEvent { message: event.message, timestamp });
                i = i + 1;
            }
            proof {
                assert(self.record_buffer@ =~= normalized(original));
            }
        } else {
            proof {
                assert(self.record_buffer@ =~= normalized(self.record_buffer@));
            }
        }
    }

    /// Advances the cursor by `delta_time` milliseconds, saturating at the largest
    /// timestamp. When a measure bar is crossed, `on_measure_bar` runs first. Then
    /// every quant after the old position up to and including the new one is
    /// replayed, take after take, and the cursor is wrapped into the cycle. No
    /// effect while paused.
    pub fn update(&mut self, delta_time: u32)
        requires
            old(self).wf(),
        ensures
            final(self).wf(),
            old(self)@.state == State::Pause ==> final(self)@ == old(self)@,
            old(self)@.state != State::Pause ==> {
                let o = old(self)@;
                let m = o.measure;
                let next = if o.time_cursor + delta_time <= u32_max() { o.time_cursor + delta_time } else { u32_max() };
                let mid = LooperView { output: o.output, time_cursor: o.time_cursor, ..final(self)@ };
                &&& if o.time_cursor as int / m.measure_ms() < next / m.measure_ms() {
                    o.bar_transition(mid)
                } else {
                    mid == o
                }
                &&& final(self)@.output == o.output + replay_span(
                    final(self)@.composition,
                    o.time_cursor as int / m.quant_ms(),
                    next / m.quant_ms(),
                )
                &&& final(self)@.time_cursor == next % mid.cycle_ms()
            },
    {
        if self.state == State::Pause {
            return;
        }
        proof {
            self.measure.lemma_wf_bounds();
        }
        let current_measure_bar = self.measure.timestamp_to_measure(self.time_cursor);
        let current_quant = self.measure.timestamp_to_quant(self.time_cursor);
        let next_time_cursor: u32 = if delta_time <= 0xffff_ffffu32 - self.time_cursor {
            self.time_cursor + delta_time
        } else {
            0xffff_ffffu32
        };
        let next_measure_bar = self.measure.timestamp_to_measure(next_time_cursor);
        let next_quant = self.measure.timestamp_to_quant(next_time_cursor);
        if current_measure_bar < next_measure_bar {
            self.on_measure_bar();
        }
        let ghost mid = self@;
        let ghost comp = self.composition@;
        let ghost from = current_quant.0 as int;
        proof {
            vstd::arithmetic::div_mod::lemma_div_is_ordered(
                self.time_cursor as int, next_time_cursor as int, self.measure.quant_ms());
            assert(self.output@ =~= mid.output + replay_span(comp, from, from));
        }
        let mut q: u32 = current_quant.0;
        while q < next_quant.0
            invariant
                mid.inv(),
                comp == mid.composition,
                self@ == (LooperView { output: self@.output, ..mid }),
                from <= q <= next_quant.0,
                self.output@ == mid.output + replay_span(comp, from, q as int),
            decreases next_quant.0 - q,
        {
            q = q + 1;
            let mut j: usize = 0;
            proof {
                assert(comp.take(0) =~= Seq::<Sample>::empty());
                assert(self.output@ =~= mid.output + replay_span(comp, from, q - 1) + replay_all(comp.take(0), q as int));
            }
            while j < self.composition.len()
                invariant
                    mid.inv(),
                    comp == mid.composition,
                    self@ == (LooperView { output: self@.output, ..mid }),
                    from < q <= next_quant.0,
                    j <= comp.len(),
                    self.output@ == mid.output + replay_span(comp, from, q - 1) + replay_all(comp.take(j as int), q as int),
                decreases comp.len() - j,
            {
                proof {
                    assert(comp[j as int].wf());
                    assert(comp.take(j + 1).drop_last() =~= comp.take(j as int));
                    assert(comp.take(j + 1).last() == comp[j as int]);
                }
                self.composition[j].replay_quant(Quant(q), &mut self.output);
                proof {
                    assert(self.output@ =~= mid.output + replay_span(comp, from, q - 1) + replay_all(comp.take(j + 1), q as int));
                }
                j = j + 1;
            }
            proof {
                assert(comp.take(j as int) =~= comp);
                assert(self.output@ =~= mid.output + replay_span(comp, from, q as int));
            }
        }
        let cycle = self.amount_of_measures * self.measure.measure_size_millis();
        proof {
            vstd::arithmetic::mul::lemma_mul_inequality(1, self.amount_of_measures as int, self.measure.measure_ms());
        }
        self.time_cursor = next_time_cursor % cycle;
    }

    /// Sets the tempo and rescales the cursor so that playback keeps its musical
    /// position; the takes, counted in quants, are untouched.
    pub fn update_tempo_bpm(&mut self, tempo_bpm: u32)
        requires
            old(self).wf(),
        ensures
            final(self).wf(),
            final(self)@ == old(self)@.with_tempo(tempo_bpm),
    {
        let new_measure = Measure { tempo_bpm, ..self.measure };
        if !new_measure.is_valid() {
            return;
        }
        proof {
            self.measure.lemma_wf_bounds();
            new_measure.lemma_wf_bounds();
        }
        let new_ms = new_measure.measure_size_millis();
        proof {
            lemma_product_fits_u64(self.amount_of_measures as int, new_ms as int);
        }
        if (self.amount_of_measures as u64) * (new_ms as u64) > 0xffff_ffffu64 {
            return;
        }
        proof {
            let c = self.time_cursor as int;
            let a = self.amount_of_measures as int;
            let o = self.measure.measure_ms();
            let n = new_ms as int;
            assert(c * (a * n) < (a * o) * (a * n)) by (nonlinear_arith)
                requires c < a * o, a >= 1, n >= 1;
            vstd::arithmetic::div_mod::lemma_multiply_divide_lt(c * (a * n), a * o, a * n);
        }
        self.time_cursor = self.measure.scale_time_cursor(&new_measure, self.amount_of_measures, self.time_cursor);
        self.measure = new_measure;
    }

    /// Handles one incoming event. The reserved control messages act on the
    /// looper and are neither recorded nor forwarded: a tempo control change sets
    /// the tempo to its value plus `TEMPO_CHANGE_BASE_BPM`, and a note-on of the
    /// control key on the control channel toggles recording (its note-off is
    /// ignored). Any other event is recorded while recording, and forwarded to
    /// the sink in any state.
    pub fn on_midi_event(&mut self, event: &AbsMidiEvent)
        requires
            old(self).wf(),
        ensures
            final(self).wf(),
            final(self)@ == (match event.message {
                TypedMidiMessage::ControlChange { number, value, .. } if number == TEMPO_CHANGE_CONTROL_NUMBER =>
                    old(self)@.with_tempo((value + TEMPO_CHANGE_BASE_BPM) as u32),
                TypedMidiMessage::NoteOn { channel, key, .. } if channel == CONTROL_CHANNEL_NUMBER && key == CONTROL_KEY_NUMBER =>
                    old(self)@.recording_toggled(),
                TypedMidiMessage::NoteOff { channel, key, .. } if channel == CONTROL_CHANNEL_NUMBER && key == CONTROL_KEY_NUMBER =>
                    old(self)@,
                _ => LooperView {
                    record_buffer: if old(self)@.state == State::Recording {
                        old(self)@.record_buffer.push(*event)
                    } else {
                        old(self)@.record_buffer
                    },
                    output: old(self)@.output.push(SinkCommand::Feed(event.message)),
                    ..old(self)@
                },
            }),
    {
        match event.message {
            TypedMidiMessage::ControlChange { number, value, .. } if number == TEMPO_CHANGE_CONTROL_NUMBER => {
                self.update_tempo_bpm(value as u32 + TEMPO_CHANGE_BASE_BPM);
            },
            TypedMidiMessage::NoteOn { channel, key, .. } if channel == CONTROL_CHANNEL_NUMBER && key == CONTROL_KEY_NUMBER => {
                self.toggle_recording();
            },
            TypedMidiMessage::NoteOff { channel, key, .. } if channel == CONTROL_CHANNEL_NUMBER && key == CONTROL_KEY_NUMBER => {},
            _ => {
                if self.state == State::Recording {
                    self.record_buffer.push(*event);
                }
                self.output.push(SinkCommand::Feed(event.message));
            },
        }
    }

    pub fn state(&self) -> (r: State)
        ensures
            r == self@.state,
    {
        self.state
    }

    pub fn next_state(&self) -> (r: Option<State>)
        ensures
            r == self@.next_state,
    {
        self.next_state
    }

    pub fn time_cursor(&self) -> (r: u32)
        ensures
            r == self@.time_cursor,
    {
        self.time_cursor
    }

    pub fn amount_of_measures(&self) -> (r: u32)
        ensures
            r == self@.amount_of_measures,
    {
        self.amount_of_measures
    }

    pub fn measure(&self) -> (r: Measure)
        ensures
            r == self@.measure,
    {
        self.measure
    }

    pub fn composition(&self) -> (r: &Vec<Sample>)
        ensures
            r@ == self@.composition,
    {
        &self.composition
    }

    pub fn record_buffer(&self) -> (r: &Vec<AbsMidiEvent>)
        ensures
            r@ == self@.record_buffer,
    {
        &self.record_buffer
    }

    /// Hands out the queued sink commands, oldest first, and empties the queue.
    pub fn take_output(&mut self) -> (r: Vec<SinkCommand>)
        requires
            old(self).wf(),
        ensures
            final(self).wf(),
            r@ == old(self)@.output,
            final(self)@ == (LooperView { output: Seq::empty(), ..old(self)@ }),
    {
        let mut out: Vec<SinkCommand> = Vec::new();
        std::mem::swap(&mut out, &mut self.output);
        proof {
            assert(self@.output =~= Seq::<SinkCommand>::empty());
        }
        out
    }

    /// The composition in stored form.
    pub fn composition_data(&self) -> (r: CompositionData)
        requires
            self.wf(),
        ensures
            r.measure == self@.measure,
            stores_all(r.samples@, self@.composition),
    {
        let mut samples: Vec<SampleData> = Vec::new();
        let mut i: usize = 0;
        while i < self.composition.len()
            invariant
                i <= self.composition@.len(),
                samples@.len() == i,
                forall|j: int| 0 <= j < i ==> stores(#[trigger] samples@[j], self.composition@[j]),
            decreases self.composition@.len() - i,
        {
            samples.push(self.composition[i].as_sample_data());
            i = i + 1;
        }
        CompositionData { samples, measure: self.measure }
    }

    /// Replaces the composition and the measure by a stored one, resets the
    /// cursor to zero and releases sounding notes. A stored composition that is
    /// not `loadable` is refused, with the first failing check as the error, and
    /// leaves the looper unchanged.
    pub fn load_composition(&mut self, data: &CompositionData) -> (r: Result<(), LoadError>)
        requires
            old(self).wf(),
        ensures
            final(self).wf(),
            r is Ok <==> loadable(data.measure, data.samples@),
            !data.measure.wf() ==> r == Err::<(), LoadError>(LoadError::InvalidMeasure),
            data.measure.wf() && !all_valid(data.samples@) ==> r == Err::<(), LoadError>(LoadError::InvalidSample),
            data.measure.wf() && all_valid(data.samples@) && !loadable(data.measure, data.samples@)
                ==> r == Err::<(), LoadError>(LoadError::CycleTooLong),
            r is Err ==> final(self)@ == old(self)@,
            r is Ok ==> {
                &&& stores_all(data.samples@, final(self)@.composition)
                &&& final(self)@ == LooperView {
                    composition: final(self)@.composition,
                    measure: data.measure,
                    amount_of_measures: lcm_all(stored_amounts(data.samples@)) as u32,
                    time_cursor: 0,
                    output: old(self)@.output.push(SinkCommand::CloseOpenedNotes),
                    ..old(self)@
                }
            },
    {
        let measure = data.measure;
        if !measure.is_valid() {
            return Err(LoadError::InvalidMeasure);
        }
        proof {
            measure.lemma_wf_bounds();
        }
        let ms = measure.measure_size_millis() as u64;
        let ghost ds = data.samples@;
        let ghost all = stored_amounts(ds);
        let mut i: usize = 0;
        while i < data.samples.len()
            invariant
                self.wf(),
                self@ == old(self)@,
                measure == data.measure,
                measure.wf(),
                ds == data.samples@,
                i <= ds.len(),
                forall|j: int| 0 <= j < i ==> (#[trigger] ds[j]).valid(),
            decreases ds.len() - i,
        {
            if !data.samples[i].is_valid() {
                return Err(LoadError::InvalidSample);
            }
            i = i + 1;
        }
        proof {
            assert forall|k: int| 0 <= k < all.len() implies all[k] >= 1 by {
                assert(ds[k].valid());
            }
        }
        let mut acc: u32 = 1;
        let mut i: usize = 0;
        proof {
            assert(all.take(0) =~= Seq::<nat>::empty());
        }
        while i < data.samples.len()
            invariant
                self.wf(),
                self@ == old(self)@,
                measure == data.measure,
                measure.wf(),
                1 <= acc,
                ds == data.samples@,
                all == stored_amounts(ds),
                all_valid(ds),
                forall|k: int| 0 <= k < all.len() ==> all[k] >= 1,
                1 <= ms <= u32_max(),
                ms == measure.measure_ms(),
                i <= ds.len(),
                acc == lcm_all(all.take(i as int)),
                acc * ms <= u32_max(),
            decreases ds.len() - i,
        {
            proof {
                assert(all.take(i + 1).drop_last() =~= all.take(i as int));
                assert(all.take(i + 1).last() == ds[i as int].amount_of_measures as nat);
                lemma_lcm_all_prefix(all, i + 1);
            }
            let next = lcm_u32(acc, data.samples[i].amount_of_measures);
            let too_long = if next > 0xffff_ffffu64 {
                true
            } else {
                proof {
                    lemma_product_fits_u64(next as int, ms as int);
                }
                next * ms > 0xffff_ffffu64
            };
            if too_long {
                proof {
                    lemma_lcm_all_prefix(all, i + 1);
                    vstd::arithmetic::mul::lemma_mul_inequality(1, ms as int, next as int);
                    vstd::arithmetic::mul::lemma_mul_inequality(next as int, lcm_all(all) as int, ms as int);
                }
                return Err(LoadError::CycleTooLong);
            }
            acc = next as u32;
            i = i + 1;
        }
        proof {
            assert(all.take(i as int) =~= all);
        }
        let mut composition: Vec<Sample> = Vec::new();
        let mut i: usize = 0;
        while i < data.samples.len()
            invariant
                self.wf(),
                self@ == old(self)@,
                measure == data.measure,
                measure.wf(),
                ds == data.samples@,
                all_valid(ds),
                i <= ds.len(),
                composition@.len() == i,
                forall|j: int| 0 <= j < i ==> stores(#[trigger] ds[j], composition@[j]),
                forall|j: int| 0 <= j < i ==> (#[trigger] composition@[j]).wf(),
            decreases ds.len() - i,
        {
            let stored = &data.samples[i];
            proof {
                assert(ds[i as int].valid());
            }
            let buffer = copy_events(&stored.buffer);
            composition.push(Sample::restore(
                buffer,
                Quant(stored.quants_per_measure),
                stored.measure_shift,
                stored.amount_of_measures,
            ));
            i = i + 1;
        }
        proof {
            assert(amounts(composition@) =~= all);
            vstd::arithmetic::mul::lemma_mul_inequality(1, acc as int, ms as int);
        }
        self.composition = composition;
        self.measure = measure;
        self.amount_of_measures = acc;
        self.time_cursor = 0;
        self.output.push(SinkCommand::CloseOpenedNotes);
        Ok(())
    }
}

/// The stored form of a well-formed looper's composition can always be loaded,
/// and loading it brings back every take's buffer, length, shift and grid.
pub proof fn lemma_stored_composition_loads(v: LooperView, data: Seq<SampleData>, loaded: Seq<Sample>)
    requires
        v.inv(),
        stores_all(data, v.composition),
        stores_all(data, loaded),
    ensures
        loadable(v.measure, data),
        forall|i: int| 0 <= i < loaded.len() ==> {
            &&& (#[trigger] loaded[i]).buffer@ == v.composition[i].buffer@
            &&& loaded[i].amount_of_measures == v.composition[i].amount_of_measures
            &&& loaded[i].measure_shift == v.composition[i].measure_shift
            &&& loaded[i].quants_per_measure == v.composition[i].quants_per_measure
        },
{
    assert forall|i: int| 0 <= i < data.len() implies (#[trigger] data[i]).valid() by {
        assert(stores(data[i], v.composition[i]));
        assert(v.composition[i].wf());
    }
    assert(stored_amounts(data) =~= amounts(v.composition)) by {
        assert forall|i: int| 0 <= i < data.len() implies stored_amounts(data)[i] == amounts(v.composition)[i] by {
            assert(stores(data[i], v.composition[i]));
        }
    }
    assert forall|i: int| 0 <= i < loaded.len() implies {
        &&& (#[trigger] loaded[i]).buffer@ == v.composition[i].buffer@
        &&& loaded[i].amount_of_measures == v.composition[i].amount_of_measures
        &&& loaded[i].measure_shift == v.composition[i].measure_shift
        &&& loaded[i].quants_per_measure == v.composition[i].quants_per_measure
    } by {
        assert(stores(data[i], v.composition[i]));
        assert(stores(data[i], loaded[i]));
        assert(loaded[i].quants_per_measure.0 == v.composition[i].quants_per_measure.0);
    }
}


/// The cycle length of a well-formed looper is the least common multiple of the
/// lengths of all its takes; every operation keeps the looper well formed.
pub proof fn lemma_cycle_is_lcm_of_takes(looper: &Looper)
    requires
        looper.wf(),
    ensures
        looper@.amount_of_measures == lcm_all(amounts(looper@.composition)),
{
}

/// Toggling recording while recording leaves the state as it is and only queues
/// the punch-out; the next measure bar then enters `Looping`.
pub proof fn lemma_punch_out_waits_for_bar(v: LooperView, n: LooperView)
    requires
        v.state == State::Recording,
        v.recording_toggled().bar_transition(n),
    ensures
        v.recording_toggled().state == State::Recording,
        v.recording_toggled().next_state == Some(State::Looping),
        n.state == State::Looping,
        n.next_state == None::<State>,
{
}

} // verus!
