use dimooper::looper::{DEFAULT_MEASURE_SIZE_BPM, DEFAULT_QUANTATION_LEVEL, DEFAULT_TEMPO_BPM};
use dimooper::measure::Measure;
use dimooper::midi::{AbsMidiEvent, SinkCommand, TypedMidiMessage};
use dimooper::quant::Quant;
use dimooper::sample::Sample;

const DEFAULT_MEASURE: Measure = Measure {
    tempo_bpm: DEFAULT_TEMPO_BPM,
    measure_size_bpm: DEFAULT_MEASURE_SIZE_BPM,
    quantation_level: DEFAULT_QUANTATION_LEVEL,
};

/// A note-on at `start` and its note-off `duration - 1` milliseconds later.
fn note(key: u8, start: u32, duration: u32) -> [AbsMidiEvent; 2] {
    [
        AbsMidiEvent {
            timestamp: start,
            message: TypedMidiMessage::NoteOn { channel: 0, key, velocity: 0 },
        },
        AbsMidiEvent {
            timestamp: start + duration - 1,
            message: TypedMidiMessage::NoteOff { channel: 0, key, velocity: 0 },
        },
    ]
}

fn on(key: u8) -> TypedMidiMessage {
    TypedMidiMessage::NoteOn { channel: 0, key, velocity: 0 }
}

fn off(key: u8) -> TypedMidiMessage {
    TypedMidiMessage::NoteOff { channel: 0, key, velocity: 0 }
}

#[test]
fn test_amount_of_measure_calculation() {
    let expected_amount_of_measures = 2;

    let buffer = note(0, 0, DEFAULT_MEASURE.measure_size_millis() * expected_amount_of_measures);

    let sample = Sample::new(&buffer, &DEFAULT_MEASURE, 0);

    println!("{}", sample.amount_of_measures);

    assert_eq!(expected_amount_of_measures, sample.amount_of_measures);
}

#[test]
fn test_sample_serialization() {
    let expected_amount_of_measures = 2;
    let buffer = note(0, 0, DEFAULT_MEASURE.measure_size_millis() * expected_amount_of_measures);

    let sample = Sample::new(&buffer, &DEFAULT_MEASURE, 0);

    let data = sample.as_sample_data();
    let massaged_sample = Sample::restore(
        data.buffer,
        Quant(data.quants_per_measure),
        data.measure_shift,
        data.amount_of_measures,
    );

    assert_eq!(sample.buffer, massaged_sample.buffer);
    assert_eq!(sample.measure_shift, massaged_sample.measure_shift);
    assert_eq!(sample.notes, massaged_sample.notes);
    assert_eq!(sample.quants_per_measure, massaged_sample.quants_per_measure);

    assert_eq!(sample.amount_of_measures, massaged_sample.amount_of_measures);
    assert_eq!(sample.sample_quant_length, massaged_sample.sample_quant_length);
}

#[test]
fn sample_quants_are_local_to_the_take() {
    let qs = DEFAULT_MEASURE.quant_size_millis();
    let mut buffer = Vec::new();
    buffer.extend_from_slice(&note(1, 3 * qs, 2 * qs + 1));
    buffer.extend_from_slice(&note(2, 20 * qs, qs + 1));
    let sample = Sample::new(&buffer, &DEFAULT_MEASURE, 0);
    assert_eq!(2, sample.amount_of_measures);
    assert_eq!(Quant(32), sample.sample_quant_length);
    let quants: Vec<u32> = sample.buffer.iter().map(|e| e.quant.0).collect();
    assert_eq!(vec![3, 5, 20, 21], quants);
    assert_eq!(2, sample.notes.len());
    assert_eq!(Quant(3), sample.notes[0].start_quant);
    assert_eq!(Quant(5), sample.notes[0].end_quant);
}

#[test]
fn replay_quant_emits_exactly_due_events() {
    let qs = DEFAULT_MEASURE.quant_size_millis();
    let buffer = [
        AbsMidiEvent { timestamp: 0, message: on(1) },
        AbsMidiEvent { timestamp: 2 * qs, message: on(2) },
        AbsMidiEvent { timestamp: 2 * qs + 10, message: off(1) },
        AbsMidiEvent { timestamp: 5 * qs, message: off(2) },
    ];
    let sample = Sample::new(&buffer, &DEFAULT_MEASURE, 0);

    let mut sink = Vec::new();
    sample.replay_quant(Quant(2), &mut sink);
    assert_eq!(vec![SinkCommand::Feed(on(2)), SinkCommand::Feed(off(1))], sink);

    let mut sink = Vec::new();
    sample.replay_quant(Quant(3), &mut sink);
    assert!(sink.is_empty());

    // the cycle wraps around the take's length
    let mut sink = vec![SinkCommand::CloseOpenedNotes];
    sample.replay_quant(Quant(16 + 5), &mut sink);
    assert_eq!(vec![SinkCommand::CloseOpenedNotes, SinkCommand::Feed(off(2))], sink);
}

#[test]
fn replay_quant_applies_measure_shift() {
    let qs = DEFAULT_MEASURE.quant_size_millis();
    let buffer = [
        AbsMidiEvent { timestamp: 0, message: on(1) },
        AbsMidiEvent { timestamp: 17 * qs, message: off(1) },
    ];
    let sample = Sample::new(&buffer, &DEFAULT_MEASURE, 1);
    assert_eq!(2, sample.amount_of_measures);
    // cycle quant 1 is take quant 1 + 16 = 17
    let mut sink = Vec::new();
    sample.replay_quant(Quant(1), &mut sink);
    assert_eq!(vec![SinkCommand::Feed(off(1))], sink);
    let mut sink = Vec::new();
    sample.replay_quant(Quant(16), &mut sink);
    assert_eq!(vec![SinkCommand::Feed(on(1))], sink);
}

#[test]
fn measure_notes_selects_overlapping_notes() {
    let qs = DEFAULT_MEASURE.quant_size_millis();
    let mut buffer = Vec::new();
    buffer.extend_from_slice(&note(1, 0, 2 * qs + 1));
    buffer.extend_from_slice(&note(2, 18 * qs, 2 * qs + 1));
    buffer.extend_from_slice(&note(3, 14 * qs, 4 * qs + 1));
    let sample = Sample::new(&buffer, &DEFAULT_MEASURE, 0);
    let first: Vec<u8> = sample.measure_notes(0).iter().map(|n| n.key).collect();
    let second: Vec<u8> = sample.measure_notes(1).iter().map(|n| n.key).collect();
    assert_eq!(vec![1, 3], first);
    assert_eq!(vec![2, 3], second);
}
