use vstd::prelude::*;
use crate::quant::Quant;
use crate::measure::{Measure, QuantMidiEvent, u32_max, lemma_product_fits_u64};
use crate::midi::{AbsMidiEvent, Note, SinkCommand, events_to_notes, notes_of};

verus! {

/// One recorded take, snapped to the grid and looped at its own whole number of
/// measures. `measure_shift` places its first measure within the looper's cycle.
#[derive(Debug)]
pub struct Sample {
    pub buffer: Vec<QuantMidiEvent>,
    pub amount_of_measures: u32,
    pub measure_shift: u32,
    pub notes: Vec<Note>,
    pub sample_quant_length: Quant,
    pub quants_per_measure: Quant,
}

/// The stored form of a take: what is needed to rebuild it.
#[derive(Debug)]
pub struct SampleData {
    pub amount_of_measures: u32,
    pub buffer: Vec<QuantMidiEvent>,
    pub measure_shift: u32,
    pub quants_per_measure: u32,
}

/// Whether the parts of a take fit together: a positive length in measures and
/// quants per measure, a total length that fits in 32 bits, and every event
/// inside that length.
pub open spec fn valid_take(buffer: Seq<QuantMidiEvent>, quants_per_measure: int, amount_of_measures: int) -> bool {
    &&& amount_of_measures >= 1
    &&& quants_per_measure >= 1
    &&& amount_of_measures * quants_per_measure <= u32_max()
    &&& forall|i: int| 0 <= i < buffer.len() ==> (#[trigger] buffer[i]).quant.0 < amount_of_measures * quants_per_measure
}

/// The command that replays an event when its quant is `local`.
pub open spec fn feed_if_at(local: int) -> spec_fn(QuantMidiEvent) -> Option<SinkCommand> {
    |e: QuantMidiEvent| if e.quant.0 == local { Some(SinkCommand::Feed(e.message)) } else { None }
}

/// Whether a note starts or ends within the quants `start..=end`.
pub open spec fn overlaps(start: int, end: int) -> spec_fn(Note) -> bool {
    |n: Note| (start <= n.start_quant.0 && n.start_quant.0 <= end) || (start <= n.end_quant.0 && n.end_quant.0 <= end)
}

impl SampleData {
    /// The stored parts make a take.
    pub open spec fn valid(&self) -> bool {
        valid_take(self.buffer@, self.quants_per_measure as int, self.amount_of_measures as int)
    }

    /// Whether the parts fit together as a take.
    pub fn is_valid(&self) -> (r: bool)
        ensures
            r == self.valid(),
    {
        if self.amount_of_measures == 0 || self.quants_per_measure == 0 {
            return false;
        }
        proof {
            lemma_product_fits_u64(self.amount_of_measures as int, self.quants_per_measure as int);
        }
        let length: u64 = (self.amount_of_measures as u64) * (self.quants_per_measure as u64);
        if length > 0xffff_ffffu64 {
            return false;
        }
        let mut i: usize = 0;
        while i < self.buffer.len()
            invariant
                i <= self.buffer@.len(),
                length == self.amount_of_measures as int * self.quants_per_measure as int,
                forall|j: int| 0 <= j < i ==> (#[trigger] self.buffer@[j]).quant.0 < length,
            decreases self.buffer@.len() - i,
        {
            if self.buffer[i].quant.0 as u64 >= length {
                return false;
            }
            i = i + 1;
        }
        true
    }
}

impl Sample {
    /// The parts fit together, the total length is cached, and the notes are
    /// those that the buffer describes.
    pub open spec fn wf(&self) -> bool {
        &&& valid_take(self.buffer@, self.quants_per_measure.0 as int, self.amount_of_measures as int)
        &&& self.sample_quant_length.0 == self.amount_of_measures * self.quants_per_measure.0
        &&& self.notes@ == notes_of(self.buffer@)
    }

    /// The quant of the take that sounds at quant `current` of the looper's cycle.
    pub open spec fn local_quant(&self, current: int) -> int {
        (current + self.measure_shift * self.quants_per_measure.0) % (self.sample_quant_length.0 as int)
    }

    /// What replaying quant `current` emits: every event stored at the matching
    /// local quant, in the order of the buffer.
    pub open spec fn due(&self, current: int) -> Seq<SinkCommand> {
        self.buffer@.filter_map(feed_if_at(self.local_quant(current)))
    }

    /// The take is what recording `buffer` on the grid of `measure` gives: its
    /// length covers the buffer, and each event is snapped and folded into it.
    pub open spec fn records(&self, buffer: Seq<AbsMidiEvent>, measure: Measure, measure_shift: int) -> bool {
        &&& self.wf()
        &&& self.amount_of_measures == measure.measures_in(buffer)
        &&& self.quants_per_measure.0 == measure.quants()
        &&& self.measure_shift == measure_shift
        &&& self.buffer@.len() == buffer.len()
        &&& forall|i: int|
            0 <= i < buffer.len() ==> #[trigger] self.buffer@[i] == measure.quantized(
                buffer[i],
                measure.measures_in(buffer) * measure.quants(),
            )
    }

    /// Rebuilds a take from its stored parts.
    pub fn restore(
        buffer: Vec<QuantMidiEvent>,
        quants_per_measure: Quant,
        measure_shift: u32,
        amount_of_measures: u32,
    ) -> (r: Sample)
        requires
            valid_take(buffer@, quants_per_measure.0 as int, amount_of_measures as int),
        ensures
            r.wf(),
            r.buffer@ == buffer@,
            r.quants_per_measure == quants_per_measure,
            r.measure_shift == measure_shift,
            r.amount_of_measures == amount_of_measures,
    {
        let notes = events_to_notes(buffer.as_slice());
        Sample {
            buffer,
            amount_of_measures,
            notes,
            sample_quant_length: Quant(amount_of_measures) * quants_per_measure,
            quants_per_measure,
            measure_shift,
        }
    }

    /// Records a take: every event is snapped to the grid of `measure` and folded
    /// into the take's length of `measure.amount_of_measures_in_buffer(buffer)` measures.
    pub fn new(buffer: &[AbsMidiEvent], measure: &Measure, measure_shift: u32) -> (r: Sample)
        requires
            measure.wf(),
            measure.measures_in(buffer@) * measure.quants() <= u32_max(),
        ensures
            r.records(buffer@, *measure, measure_shift as int),
    {
        proof {
            measure.lemma_wf_bounds();
        }
        let amount_of_measures = measure.amount_of_measures_in_buffer(buffer);
        let quants_per_measure = measure.quants_per_measure();
        let quant_buffer = measure.quantize_buffer(buffer);
        proof {
            vstd::arithmetic::mul::lemma_mul_inequality(1, amount_of_measures as int, quants_per_measure.0 as int);
            assert forall|i: int| 0 <= i < quant_buffer@.len() implies (#[trigger] quant_buffer@[i]).quant.0
                < amount_of_measures * quants_per_measure.0 by {
                assert(quant_buffer@[i] == measure.quantized(buffer@[i], amount_of_measures * quants_per_measure.0));
            }
        }
        Sample::restore(quant_buffer, quants_per_measure, measure_shift, amount_of_measures)
    }

    /// Emits, into `sink`, every event of the take stored at the local quant that
    /// corresponds to quant `current_quant` of the cycle, in buffer order.
    pub fn replay_quant(&self, current_quant: Quant, sink: &mut Vec<SinkCommand>)
        requires
            self.wf(),
        ensures
            final(sink)@ == old(sink)@ + self.due(current_quant.0 as int),
    {
        proof {
            lemma_product_fits_u64(self.measure_shift as int, self.quants_per_measure.0 as int);
            vstd::arithmetic::mul::lemma_mul_inequality(1, self.amount_of_measures as int, self.quants_per_measure.0 as int);
        }
        let shift: u64 = (self.measure_shift as u64) * (self.quants_per_measure.0 as u64);
        let local: u64 = ((current_quant.0 as u64) + shift) % (self.sample_quant_length.0 as u64);
        let ghost f = feed_if_at(local as int);
        let mut i: usize = 0;
        proof {
            assert(self.buffer@.take(0) =~= Seq::<QuantMidiEvent>::empty());
            assert(sink@ =~= old(sink)@ + self.buffer@.take(0).filter_map(f));
        }
        while i < self.buffer.len()
            invariant
                self.wf(),
                i <= self.buffer@.len(),
                local == self.local_quant(current_quant.0 as int),
                f == feed_if_at(local as int),
                sink@ == old(sink)@ + self.buffer@.take(i as int).filter_map(f),
            decreases self.buffer@.len() - i,
        {
            let event = self.buffer[i];
            proof {
                assert(self.buffer@.take(i + 1).drop_last() =~= self.buffer@.take(i as int));
                assert(self.buffer@.take(i + 1).last() == event);
            }
            if event.quant.0 as u64 == local {
                sink.push(SinkCommand::Feed(event.message));
            }
            proof {
                assert(sink@ =~= old(sink)@ + self.buffer@.take(i + 1).filter_map(f));
            }
            i = i + 1;
        }
        proof {
            assert(self.buffer@.take(i as int) =~= self.buffer@);
        }
    }

    /// The notes that start or end within measure `measure_number` of the take.
    pub fn measure_notes(&self, measure_number: u32) -> (r: Vec<Note>)
        ensures
            r@ == self.notes@.filter(overlaps(
                measure_number * self.quants_per_measure.0,
                (measure_number + 1) * self.quants_per_measure.0,
            )),
    {
        proof {
            lemma_product_fits_u64(measure_number as int, self.quants_per_measure.0 as int);
            lemma_product_fits_u64(measure_number as int + 1, self.quants_per_measure.0 as int);
        }
        let start: u64 = (measure_number as u64) * (self.quants_per_measure.0 as u64);
        let end: u64 = (measure_number as u64 + 1) * (self.quants_per_measure.0 as u64);
        let ghost p = overlaps(start as int, end as int);
        let mut result: Vec<Note> = Vec::new();
        let mut i: usize = 0;
        proof {
            assert(self.notes@.take(0) =~= Seq::<Note>::empty());
            reveal(Seq::filter);
            assert(self.notes@.take(0).filter(p) =~= Seq::<Note>::empty());
        }
        while i < self.notes.len()
            invariant
                i <= self.notes@.len(),
                p == overlaps(start as int, end as int),
                result@ == self.notes@.take(i as int).filter(p),
            decreases self.notes@.len() - i,
        {
            let note = self.notes[i];
            proof {
                assert(self.notes@.take(i + 1).drop_last() =~= self.notes@.take(i as int));
                reveal(Seq::filter);
            }
            let s = note.start_quant.0 as u64;
            let e = note.end_quant.0 as u64;
            if (start <= s && s <= end) || (start <= e && e <= end) {
                result.push(note);
            }
            i = i + 1;
        }
        proof {
            assert(self.notes@.take(i as int) =~= self.notes@);
            assert(start == measure_number * self.quants_per_measure.0);
            assert(end == (measure_number + 1) * self.quants_per_measure.0);
        }
        result
    }

    /// The stored form of the take.
    pub fn as_sample_data(&self) -> (r: SampleData)
        ensures
            r.buffer@ == self.buffer@,
            r.amount_of_measures == self.amount_of_measures,
            r.measure_shift == self.measure_shift,
            r.quants_per_measure == self.quants_per_measure.0,
    {
        let buffer = copy_events(&self.buffer);
        SampleData {
            amount_of_measures: self.amount_of_measures,
            buffer,
            measure_shift: self.measure_shift,
            quants_per_measure: self.quants_per_measure.0,
        }
    }
}

/// A copy of a buffer of grid events.
pub(crate) fn copy_events(events: &Vec<QuantMidiEvent>) -> (r: Vec<QuantMidiEvent>)
    ensures
        r@ == events@,
{
    let mut r: Vec<QuantMidiEvent> = Vec::new();
    let mut i: usize = 0;
    while i < events.len()
        invariant
            i <= events@.len(),
            r@ == events@.take(i as int),
        decreases events@.len() - i,
    {
        r.push(events[i]);
        proof {
            assert(r@ =~= events@.take(i + 1));
        }
        i = i + 1;
    }
    proof {
        assert(events@.take(i as int) =~= events@);
    }
    r
}

/// Replaying a quant emits nothing but events of the take whose stored quant is
/// the local quant for that position, each as a message to feed.
pub proof fn lemma_replay_emits_only_due(sample: Sample, current: int, c: SinkCommand)
    requires
        sample.wf(),
        sample.due(current).contains(c),
    ensures
        exists|e: QuantMidiEvent|
            #[trigger] sample.buffer@.contains(e) && e.quant.0 == sample.local_quant(current)
                && c == SinkCommand::Feed(e.message),
{
    sample.buffer@.lemma_filter_map_contains(feed_if_at(sample.local_quant(current)), c);
}

/// Every event of the take stored at the local quant for a position is emitted
/// when that position is replayed.
pub proof fn lemma_replay_emits_every_due(sample: Sample, current: int, i: int)
    requires
        sample.wf(),
        0 <= i < sample.buffer@.len(),
        sample.buffer@[i].quant.0 == sample.local_quant(current),
    ensures
        sample.due(current).contains(SinkCommand::Feed(sample.buffer@[i].message)),
{
    let f = feed_if_at(sample.local_quant(current));
    lemma_filter_map_keeps(sample.buffer@, f, i);
}

proof fn lemma_filter_map_keeps(s: Seq<QuantMidiEvent>, f: spec_fn(QuantMidiEvent) -> Option<SinkCommand>, i: int)
    requires
        0 <= i < s.len(),
        f(s[i]) is Some,
    ensures
        s.filter_map(f).contains(f(s[i])->0),
    decreases s.len(),
{
    let rest = s.drop_last();
    if i == s.len() - 1 {
        let out = s.filter_map(f);
        assert(out[out.len() - 1] == f(s[i])->0);
    } else {
        lemma_filter_map_keeps(rest, f, i);
        let k = choose|k: int| 0 <= k < rest.filter_map(f).len() && rest.filter_map(f)[k] == f(s[i])->0;
        assert(s.filter_map(f)[k] == f(s[i])->0);
    }
}

} // verus!
