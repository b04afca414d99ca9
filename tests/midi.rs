use dimooper::measure::QuantMidiEvent;
use dimooper::midi::{
    events_to_notes, get_message_type, get_message_type_code, get_note_channel, get_note_key,
    get_note_velocity, is_note_message, is_note_off, is_note_on, parse_midi_event,
    parse_midi_message, AbsMidiEvent, MessageType, MidiNoteTracker, MidiSink, DummyMidiNoteTracker,
    RawMidiEvent, RawMidiMessage, SoundingNotes, TypedMidiMessage,
};
use dimooper::quant::Quant;

fn raw(status: u8, data1: u8, data2: u8) -> RawMidiMessage {
    RawMidiMessage { status, data1, data2 }
}

fn at(quant: u32, message: TypedMidiMessage) -> QuantMidiEvent {
    QuantMidiEvent { message, quant: Quant(quant) }
}

#[test]
fn parses_note_and_control_messages() {
    assert_eq!(
        Some(TypedMidiMessage::NoteOn { channel: 3, key: 60, velocity: 100 }),
        parse_midi_message(&raw(0x93, 60, 100))
    );
    assert_eq!(
        Some(TypedMidiMessage::NoteOff { channel: 15, key: 61, velocity: 0 }),
        parse_midi_message(&raw(0x8f, 61, 0))
    );
    assert_eq!(
        Some(TypedMidiMessage::ControlChange { channel: 0, number: 21, value: 30 }),
        parse_midi_message(&raw(0xb0, 21, 30))
    );
    assert_eq!(None, parse_midi_message(&raw(0xe0, 1, 2)));
    assert_eq!(None, parse_midi_message(&raw(0x10, 1, 2)));
}

#[test]
fn parses_timestamped_events() {
    let event = RawMidiEvent { message: raw(0x90, 5, 6), timestamp: 77 };
    assert_eq!(
        Some(AbsMidiEvent { message: TypedMidiMessage::NoteOn { channel: 0, key: 5, velocity: 6 }, timestamp: 77 }),
        parse_midi_event(&event)
    );
    let other = RawMidiEvent { message: raw(0xc0, 5, 6), timestamp: 77 };
    assert_eq!(None, parse_midi_event(&other));
}

#[test]
fn encodes_to_wire_bytes() {
    assert_eq!(raw(0x92, 64, 90), TypedMidiMessage::NoteOn { channel: 2, key: 64, velocity: 90 }.to_raw());
    assert_eq!(raw(0x80, 64, 0), TypedMidiMessage::NoteOff { channel: 0, key: 64, velocity: 0 }.to_raw());
    assert_eq!(raw(0xb9, 7, 127), TypedMidiMessage::ControlChange { channel: 9, number: 7, value: 127 }.to_raw());
}

#[test]
fn encode_then_parse_round_trips() {
    for channel in 0u8..16 {
        let messages = [
            TypedMidiMessage::NoteOn { channel, key: 10, velocity: 20 },
            TypedMidiMessage::NoteOff { channel, key: 11, velocity: 21 },
            TypedMidiMessage::ControlChange { channel, number: 12, value: 22 },
        ];
        for m in messages.iter() {
            assert_eq!(Some(*m), parse_midi_message(&m.to_raw()));
        }
    }
}

#[test]
fn status_helpers() {
    let m = raw(0x9a, 33, 44);
    assert_eq!(0x90, get_message_type_code(&m));
    assert_eq!(MessageType::NoteOn, get_message_type(&m));
    assert_eq!(MessageType::NoteOff, get_message_type(&raw(0x81, 0, 0)));
    assert_eq!(MessageType::Other, get_message_type(&raw(0xb1, 0, 0)));
    assert!(is_note_on(&m));
    assert!(!is_note_off(&m));
    assert!(is_note_message(&m));
    assert!(!is_note_message(&raw(0xb1, 0, 0)));
    assert_eq!(10, get_note_channel(&m));
    assert_eq!(33, get_note_key(&m));
    assert_eq!(44, get_note_velocity(&m));
}

#[test]
fn pairs_notes_and_reopens_on_repeated_note_on() {
    let on = |key: u8, velocity: u8| TypedMidiMessage::NoteOn { channel: 1, key, velocity };
    let off = |key: u8| TypedMidiMessage::NoteOff { channel: 1, key, velocity: 0 };
    let events = [
        at(0, on(60, 100)),
        at(2, on(62, 90)),
        at(4, off(60)),
        at(5, on(62, 80)),
        at(6, off(62)),
        at(7, off(70)),
        at(8, TypedMidiMessage::ControlChange { channel: 1, number: 3, value: 4 }),
        at(9, on(64, 70)),
    ];
    let notes = events_to_notes(&events);
    assert_eq!(3, notes.len());
    assert_eq!((60, Quant(0), Quant(4), 100), (notes[0].key, notes[0].start_quant, notes[0].end_quant, notes[0].velocity));
    assert_eq!((62, Quant(2), Quant(5), 90), (notes[1].key, notes[1].start_quant, notes[1].end_quant, notes[1].velocity));
    assert_eq!((62, Quant(5), Quant(6), 80), (notes[2].key, notes[2].start_quant, notes[2].end_quant, notes[2].velocity));
    assert_eq!(1, notes[2].channel);
}

#[test]
fn pairing_skips_out_of_range_slots() {
    let events = [
        at(0, TypedMidiMessage::NoteOn { channel: 16, key: 1, velocity: 1 }),
        at(1, TypedMidiMessage::NoteOff { channel: 16, key: 1, velocity: 1 }),
        at(2, TypedMidiMessage::NoteOn { channel: 0, key: 200, velocity: 1 }),
        at(3, TypedMidiMessage::NoteOff { channel: 0, key: 200, velocity: 1 }),
    ];
    assert!(events_to_notes(&events).is_empty());
    assert!(events_to_notes(&[]).is_empty());
}

#[test]
fn dummy_tracker_accepts_everything() {
    let mut sink = DummyMidiNoteTracker;
    assert!(sink.feed(TypedMidiMessage::NoteOn { channel: 0, key: 1, velocity: 2 }).is_ok());
    sink.close_opened_notes();
}

#[test]
fn sounding_notes_are_released_in_slot_order() {
    let mut notes = SoundingNotes::new();
    assert!(notes.close_opened_notes().is_empty());
    notes.feed(TypedMidiMessage::NoteOn { channel: 2, key: 5, velocity: 9 });
    notes.feed(TypedMidiMessage::NoteOn { channel: 0, key: 127, velocity: 9 });
    notes.feed(TypedMidiMessage::NoteOn { channel: 1, key: 3, velocity: 9 });
    notes.feed(TypedMidiMessage::NoteOff { channel: 1, key: 3, velocity: 0 });
    notes.feed(TypedMidiMessage::ControlChange { channel: 1, number: 3, value: 0 });
    notes.feed(TypedMidiMessage::NoteOn { channel: 17, key: 3, velocity: 9 });
    assert_eq!(
        vec![
            TypedMidiMessage::NoteOff { channel: 0, key: 127, velocity: 0 },
            TypedMidiMessage::NoteOff { channel: 2, key: 5, velocity: 0 },
        ],
        notes.close_opened_notes()
    );
    assert!(notes.close_opened_notes().is_empty());
}
