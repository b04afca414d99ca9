use dimooper::looper::{
    CompositionData, LoadError, Looper, State, CONTROL_CHANNEL_NUMBER, CONTROL_KEY_NUMBER,
    TEMPO_CHANGE_CONTROL_NUMBER,
};
use dimooper::measure::{Measure, QuantMidiEvent};
use dimooper::midi::{AbsMidiEvent, SinkCommand, TypedMidiMessage};
use dimooper::quant::Quant;
use dimooper::sample::SampleData;

fn on(key: u8, timestamp: u32) -> AbsMidiEvent {
    AbsMidiEvent { message: TypedMidiMessage::NoteOn { channel: 0, key, velocity: 64 }, timestamp }
}

fn off(key: u8, timestamp: u32) -> AbsMidiEvent {
    AbsMidiEvent { message: TypedMidiMessage::NoteOff { channel: 0, key, velocity: 0 }, timestamp }
}

fn click(velocity: u8) -> SinkCommand {
    SinkCommand::Feed(TypedMidiMessage::NoteOn { channel: 9, key: 62, velocity })
}

fn click_off() -> SinkCommand {
    SinkCommand::Feed(TypedMidiMessage::NoteOff { channel: 9, key: 62, velocity: 0 })
}

/// Records `events` as a take, committing it at the next measure bar.
fn record_take(looper: &mut Looper, events: &[AbsMidiEvent]) {
    looper.toggle_recording();
    for event in events {
        looper.on_midi_event(event);
    }
    looper.toggle_recording();
    let ms = looper.measure().measure_size_millis();
    let to_bar = ms - looper.time_cursor() % ms;
    looper.update(to_bar);
    looper.take_output();
}

#[test]
fn new_looper_plays_metronome() {
    let mut looper = Looper::new();
    assert_eq!(State::Looping, looper.state());
    assert_eq!(None, looper.next_state());
    assert_eq!(0, looper.time_cursor());
    assert_eq!(1, looper.amount_of_measures());
    assert_eq!(1, looper.composition().len());
    assert_eq!(vec![SinkCommand::CloseOpenedNotes], looper.take_output());

    looper.update(500);
    assert_eq!(vec![click(60), click_off()], looper.take_output());
    assert_eq!(500, looper.time_cursor());
}

#[test]
fn record_one_measure_then_undo() {
    let mut looper = Looper::new();
    looper.take_output();
    let ms = looper.measure().measure_size_millis();

    looper.toggle_recording();
    assert_eq!(State::Recording, looper.state());
    looper.on_midi_event(&on(1, 0));
    looper.on_midi_event(&off(1, ms - 1));
    assert_eq!(2, looper.record_buffer().len());
    looper.toggle_recording();
    assert_eq!(State::Recording, looper.state());
    assert_eq!(Some(State::Looping), looper.next_state());
    assert_eq!(
        vec![SinkCommand::Feed(on(1, 0).message), SinkCommand::Feed(off(1, 0).message)],
        looper.take_output()
    );

    looper.update(ms);
    assert_eq!(State::Looping, looper.state());
    assert_eq!(None, looper.next_state());
    assert_eq!(2, looper.composition().len());
    assert_eq!(1, looper.amount_of_measures());
    assert_eq!(0, looper.time_cursor());
    let expected = vec![
        click(60), click_off(),
        click(60), click_off(),
        click(60), click_off(),
        click(100), click_off(),
        SinkCommand::Feed(on(1, 0).message), SinkCommand::Feed(off(1, 0).message),
    ];
    assert_eq!(expected, looper.take_output());

    looper.undo_last_recording();
    assert_eq!(1, looper.composition().len());
    assert_eq!(1, looper.amount_of_measures());
    assert_eq!(vec![SinkCommand::CloseOpenedNotes], looper.take_output());

    looper.undo_last_recording();
    assert_eq!(1, looper.composition().len());
    assert!(looper.take_output().is_empty());
}

#[test]
fn cycle_is_lcm_of_take_lengths() {
    let mut looper = Looper::new();
    let ms = looper.measure().measure_size_millis();
    record_take(&mut looper, &[on(1, 0), off(1, 2 * ms - 1)]);
    assert_eq!(2, looper.amount_of_measures());
    record_take(&mut looper, &[on(2, 0), off(2, 3 * ms - 1)]);
    assert_eq!(6, looper.amount_of_measures());
    record_take(&mut looper, &[on(3, 0), off(3, 4 * ms - 1)]);
    assert_eq!(12, looper.amount_of_measures());
    assert_eq!(4, looper.composition().len());
    looper.undo_last_recording();
    assert_eq!(6, looper.amount_of_measures());
    looper.undo_last_recording();
    assert_eq!(2, looper.amount_of_measures());
    assert!(looper.time_cursor() < 2 * ms);
}

#[test]
fn new_take_is_shifted_to_the_next_bar() {
    let mut looper = Looper::new();
    let ms = looper.measure().measure_size_millis();
    record_take(&mut looper, &[on(1, 0), off(1, 2 * ms - 1)]);
    assert_eq!(2, looper.amount_of_measures());
    // committed at the bar after measure 0 of the new two-measure cycle
    assert_eq!(1, looper.composition()[1].measure_shift);
    looper.update(ms);
    assert_eq!(0, looper.time_cursor());
    record_take(&mut looper, &[on(2, 0), off(2, ms - 1)]);
    assert_eq!(1, looper.composition()[2].measure_shift);
    looper.update(ms / 2);
    record_take(&mut looper, &[on(3, 0), off(3, 3 * ms - 1)]);
    assert_eq!(6, looper.amount_of_measures());
    assert_eq!(4, looper.composition()[3].measure_shift);
}

#[test]
fn toggle_recording_waits_for_measure_bar() {
    let mut looper = Looper::new();
    looper.toggle_recording();
    looper.toggle_recording();
    looper.update(10);
    assert_eq!(State::Recording, looper.state());
    looper.on_measure_bar();
    assert_eq!(State::Looping, looper.state());
    assert_eq!(2, looper.composition().len());
}

#[test]
fn pause_stops_playback_and_releases_notes() {
    let mut looper = Looper::new();
    looper.take_output();
    looper.toggle_pause();
    assert_eq!(State::Pause, looper.state());
    assert_eq!(vec![SinkCommand::CloseOpenedNotes], looper.take_output());
    looper.update(1000);
    assert_eq!(0, looper.time_cursor());
    assert!(looper.take_output().is_empty());
    looper.toggle_recording();
    assert_eq!(State::Pause, looper.state());
    looper.toggle_pause();
    assert_eq!(State::Looping, looper.state());
    looper.toggle_recording();
    looper.toggle_pause();
    assert_eq!(State::Recording, looper.state());
}

#[test]
fn undo_while_recording_drops_buffer() {
    let mut looper = Looper::new();
    looper.toggle_recording();
    looper.on_midi_event(&on(1, 5));
    looper.undo_last_recording();
    assert_eq!(State::Recording, looper.state());
    assert!(looper.record_buffer().is_empty());
    assert_eq!(1, looper.composition().len());
}

#[test]
fn tempo_change_keeps_musical_position() {
    let mut looper = Looper::new();
    let ms = looper.measure().measure_size_millis();
    record_take(&mut looper, &[on(1, 0), off(1, ms - 1)]);
    looper.update(500);
    let before = looper.time_cursor() as f64 / looper.measure().measure_size_millis() as f64;
    looper.update_tempo_bpm(90);
    assert_eq!(90, looper.measure().tempo_bpm);
    assert_eq!(2664, looper.measure().measure_size_millis());
    assert_eq!(666, looper.time_cursor());
    let after = looper.time_cursor() as f64 / looper.measure().measure_size_millis() as f64;
    assert!((before - after).abs() < 1.0 / 2664.0);
    assert_eq!(2, looper.composition().len());
}

#[test]
fn invalid_tempo_is_ignored() {
    let mut looper = Looper::new();
    looper.update(300);
    looper.update_tempo_bpm(0);
    assert_eq!(120, looper.measure().tempo_bpm);
    assert_eq!(300, looper.time_cursor());
}

#[test]
fn control_messages_are_intercepted() {
    let mut looper = Looper::new();
    looper.take_output();
    let toggle = AbsMidiEvent {
        message: TypedMidiMessage::NoteOn { channel: CONTROL_CHANNEL_NUMBER, key: CONTROL_KEY_NUMBER, velocity: 1 },
        timestamp: 0,
    };
    let release = AbsMidiEvent {
        message: TypedMidiMessage::NoteOff { channel: CONTROL_CHANNEL_NUMBER, key: CONTROL_KEY_NUMBER, velocity: 0 },
        timestamp: 1,
    };
    looper.on_midi_event(&toggle);
    assert_eq!(State::Recording, looper.state());
    looper.on_midi_event(&release);
    looper.on_midi_event(&on(7, 2));
    assert_eq!(vec![on(7, 2)], *looper.record_buffer());
    let tempo = AbsMidiEvent {
        message: TypedMidiMessage::ControlChange { channel: 0, number: TEMPO_CHANGE_CONTROL_NUMBER, value: 30 },
        timestamp: 3,
    };
    looper.on_midi_event(&tempo);
    assert_eq!(120, looper.measure().tempo_bpm);
    assert_eq!(vec![SinkCommand::Feed(on(7, 2).message)], looper.take_output());
    assert_eq!(1, looper.record_buffer().len());

    let other_cc = AbsMidiEvent {
        message: TypedMidiMessage::ControlChange { channel: 0, number: 7, value: 30 },
        timestamp: 4,
    };
    looper.on_midi_event(&other_cc);
    assert_eq!(vec![SinkCommand::Feed(other_cc.message)], looper.take_output());
}

#[test]
fn tempo_control_sets_tempo_from_value() {
    let mut looper = Looper::new();
    let tempo = AbsMidiEvent {
        message: TypedMidiMessage::ControlChange { channel: 4, number: TEMPO_CHANGE_CONTROL_NUMBER, value: 10 },
        timestamp: 0,
    };
    looper.on_midi_event(&tempo);
    assert_eq!(100, looper.measure().tempo_bpm);
    assert_eq!(2400, looper.measure().measure_size_millis());
}

#[test]
fn reset_returns_to_metronome() {
    let mut looper = Looper::new();
    let ms = looper.measure().measure_size_millis();
    record_take(&mut looper, &[on(1, 0), off(1, 2 * ms - 1)]);
    looper.update(700);
    looper.take_output();
    looper.reset();
    assert_eq!(1, looper.composition().len());
    assert_eq!(1, looper.amount_of_measures());
    assert_eq!(0, looper.time_cursor());
    assert_eq!(State::Looping, looper.state());
    assert_eq!(vec![SinkCommand::CloseOpenedNotes], looper.take_output());
}

#[test]
fn composition_round_trips_through_stored_form() {
    let mut looper = Looper::new();
    let ms = looper.measure().measure_size_millis();
    record_take(&mut looper, &[on(1, 0), off(1, 2 * ms - 1)]);
    record_take(&mut looper, &[on(2, 100), on(3, 400), off(2, 900), off(3, 2900)]);
    looper.update_tempo_bpm(100);
    let data = looper.composition_data();
    assert_eq!(3, data.samples.len());

    let mut restored = Looper::new();
    restored.take_output();
    assert_eq!(Ok(()), restored.load_composition(&data));
    assert_eq!(looper.measure(), restored.measure());
    assert_eq!(looper.amount_of_measures(), restored.amount_of_measures());
    assert_eq!(0, restored.time_cursor());
    assert_eq!(vec![SinkCommand::CloseOpenedNotes], restored.take_output());
    for (a, b) in looper.composition().iter().zip(restored.composition().iter()) {
        assert_eq!(a.buffer, b.buffer);
        assert_eq!(a.amount_of_measures, b.amount_of_measures);
        assert_eq!(a.measure_shift, b.measure_shift);
        assert_eq!(a.quants_per_measure, b.quants_per_measure);
        assert_eq!(a.notes, b.notes);
    }
}

#[test]
fn composition_test_composition_serialization() {
    let looper = Looper::new();
    let data = looper.composition_data();
    let mut other = Looper::new();
    other.update_tempo_bpm(150);
    assert_eq!(Ok(()), other.load_composition(&data));
    assert_eq!(looper.measure(), other.measure());
}

#[test]
fn composition_data_test_composition_serialization() {
    let mut looper = Looper::new();
    let ms = looper.measure().measure_size_millis();
    record_take(&mut looper, &[on(0, 0), off(0, 2 * ms - 1)]);
    record_take(&mut looper, &[on(0, 0), off(0, 2 * ms - 1)]);
    let data = looper.composition_data();
    let mut other = Looper::new();
    assert_eq!(Ok(()), other.load_composition(&data));
    assert_eq!(data.measure, other.measure());
}

fn stored(amount: u32, quants: &[u32]) -> SampleData {
    SampleData {
        amount_of_measures: amount,
        buffer: quants
            .iter()
            .map(|q| QuantMidiEvent {
                message: TypedMidiMessage::NoteOn { channel: 0, key: 1, velocity: 1 },
                quant: Quant(*q),
            })
            .collect(),
        measure_shift: 0,
        quants_per_measure: 16,
    }
}

#[test]
fn load_refuses_invalid_compositions() {
    let good = Measure { tempo_bpm: 120, measure_size_bpm: 4, quantation_level: 2 };
    let mut looper = Looper::new();
    looper.update(123);

    let bad_measure = CompositionData { samples: vec![], measure: Measure { tempo_bpm: 0, ..good } };
    assert_eq!(Err(LoadError::InvalidMeasure), looper.load_composition(&bad_measure));

    let bad_sample = CompositionData { samples: vec![stored(1, &[0, 16])], measure: good };
    assert_eq!(Err(LoadError::InvalidSample), looper.load_composition(&bad_sample));

    let zero_length = CompositionData { samples: vec![stored(0, &[])], measure: good };
    assert_eq!(Err(LoadError::InvalidSample), looper.load_composition(&zero_length));

    let too_long = CompositionData {
        samples: vec![stored(1_000_000, &[]), stored(999_999, &[])],
        measure: good,
    };
    assert_eq!(Err(LoadError::CycleTooLong), looper.load_composition(&too_long));

    assert_eq!(123, looper.time_cursor());
    assert_eq!(1, looper.composition().len());

    let fine = CompositionData { samples: vec![stored(2, &[0, 31]), stored(3, &[47])], measure: good };
    assert_eq!(Ok(()), looper.load_composition(&fine));
    assert_eq!(6, looper.amount_of_measures());
    assert_eq!(2, looper.composition().len());
}
