use vstd::prelude::*;
use crate::quant::Quant;
use crate::measure::QuantMidiEvent;

verus! {

/// Status nibble of a note-on message.
pub const NOTE_ON_STATUS: u8 = 0x90;
/// Status nibble of a note-off message.
pub const NOTE_OFF_STATUS: u8 = 0x80;
/// Status nibble of a control-change message.
pub const CONTROL_CHANGE_STATUS: u8 = 0xb0;
/// Number of MIDI channels.
pub const AMOUNT_OF_MIDI_CHANNELS: usize = 16;
/// Number of keys on one channel.
pub const AMOUNT_OF_MIDI_KEYS: usize = 128;

/// A MIDI channel message, with the fields that the looper reads.
#[derive(Clone, Copy, Debug, PartialEq, Eq, Structural)]
pub enum TypedMidiMessage {
    NoteOn { channel: u8, key: u8, velocity: u8 },
    NoteOff { channel: u8, key: u8, velocity: u8 },
    ControlChange { channel: u8, number: u8, value: u8 },
}

/// A message stamped with the absolute time, in milliseconds, at which it arrived.
#[derive(Clone, Copy, Debug, PartialEq, Eq, Structural)]
pub struct AbsMidiEvent {
    pub message: TypedMidiMessage,
    pub timestamp: u32,
}

/// The three bytes of a MIDI channel message as they travel on the wire.
#[derive(Clone, Copy, Debug, PartialEq, Eq, Structural)]
pub struct RawMidiMessage {
    pub status: u8,
    pub data1: u8,
    pub data2: u8,
}

/// A wire message with the time, in milliseconds, at which it arrived.
#[derive(Clone, Copy, Debug, PartialEq, Eq, Structural)]
pub struct RawMidiEvent {
    pub message: RawMidiMessage,
    pub timestamp: u32,
}

/// The kind of a note message, or `Other` for any other status.
#[derive(Clone, Copy, Debug, PartialEq, Eq, Structural)]
pub enum MessageType {
    NoteOn,
    NoteOff,
    Other,
}

/// A sounding note, from the quant where it starts to the quant where it ends.
#[derive(Clone, Copy, Debug, PartialEq, Eq, Structural)]
pub struct Note {
    pub start_quant: Quant,
    pub end_quant: Quant,
    pub key: u8,
    pub channel: u8,
    pub velocity: u8,
}

/// An instruction for the device that plays what the looper emits.
#[derive(Clone, Copy, Debug, PartialEq, Eq, Structural)]
pub enum SinkCommand {
    /// Transmit one message.
    Feed(TypedMidiMessage),
    /// Send a note-off for every note that is still sounding.
    CloseOpenedNotes,
}

/// A device failed to transmit a message.
#[derive(Clone, Copy, Debug, PartialEq, Eq, Structural)]
pub struct SinkError {
    pub code: i32,
}

/// A device that transmits MIDI messages.
pub trait MidiSink {
    fn feed(&mut self, midi_message: TypedMidiMessage) -> Result<(), SinkError>;
}

/// A sink that also remembers which notes sound, so that it can silence them.
pub trait MidiNoteTracker: MidiSink {
    fn close_opened_notes(&mut self);
}

/// A sink that discards everything it is fed.
pub struct DummyMidiNoteTracker;

impl MidiSink for DummyMidiNoteTracker {
    fn feed(&mut self, _midi_message: TypedMidiMessage) -> Result<(), SinkError> {
        Ok(())
    }
}

impl MidiNoteTracker for DummyMidiNoteTracker {
    fn close_opened_notes(&mut self) {
    }
}

/// The high nibble of a status byte, which names the message kind.
pub open spec fn status_kind(status: u8) -> int {
    status as int / 16
}

/// The low nibble of a status byte, which names the channel.
pub open spec fn status_channel(status: u8) -> int {
    status as int % 16
}

/// What a wire message means, when it is a note or a control change.
pub open spec fn parsed(raw: RawMidiMessage) -> Option<TypedMidiMessage> {
    let channel = status_channel(raw.status) as u8;
    if status_kind(raw.status) == 9 {
        Some(TypedMidiMessage::NoteOn { channel, key: raw.data1, velocity: raw.data2 })
    } else if status_kind(raw.status) == 8 {
        Some(TypedMidiMessage::NoteOff { channel, key: raw.data1, velocity: raw.data2 })
    } else if status_kind(raw.status) == 11 {
        Some(TypedMidiMessage::ControlChange { channel, number: raw.data1, value: raw.data2 })
    } else {
        None
    }
}

/// The channel a message is addressed to.
pub open spec fn channel_of(m: TypedMidiMessage) -> u8 {
    match m {
        TypedMidiMessage::NoteOn { channel, .. } => channel,
        TypedMidiMessage::NoteOff { channel, .. } => channel,
        TypedMidiMessage::ControlChange { channel, .. } => channel,
    }
}

proof fn lemma_status_nibbles(s: u8)
    ensures
        (s & 0xf0u8) as int == status_kind(s) * 16,
        (s & 0x0fu8) as int == status_channel(s),
{
    assert(s & 0xf0u8 == s - s % 16) by (bit_vector);
    assert(s & 0x0fu8 == s % 16) by (bit_vector);
}

proof fn lemma_status_of_channel(base: u8, c: u8)
    requires
        c < 16,
        base == 0x80 || base == 0x90 || base == 0xb0,
    ensures
        status_kind(base | c) == base as int / 16,
        status_channel(base | c) == c,
{
    assert((base | c) / 16 == base / 16 && (base | c) % 16 == c) by (bit_vector)
        requires c < 16u8, base == 0x80u8 || base == 0x90u8 || base == 0xb0u8;
}

impl TypedMidiMessage {
    /// The wire bytes of the message: the kind in the high nibble of the status
    /// byte, the channel in its low nibble, then the two data bytes.
    pub open spec fn spec_raw(self) -> RawMidiMessage {
        match self {
            TypedMidiMessage::NoteOn { channel, key, velocity } =>
                RawMidiMessage { status: 0x90u8 | channel, data1: key, data2: velocity },
            TypedMidiMessage::NoteOff { channel, key, velocity } =>
                RawMidiMessage { status: 0x80u8 | channel, data1: key, data2: velocity },
            TypedMidiMessage::ControlChange { channel, number, value } =>
                RawMidiMessage { status: 0xb0u8 | channel, data1: number, data2: value },
        }
    }

    pub fn to_raw(&self) -> (r: RawMidiMessage)
        ensures
            r == self.spec_raw(),
    {
        match *self {
            TypedMidiMessage::NoteOn { channel, key, velocity } =>
                RawMidiMessage { status: NOTE_ON_STATUS | channel, data1: key, data2: velocity },
            TypedMidiMessage::NoteOff { channel, key, velocity } =>
                RawMidiMessage { status: NOTE_OFF_STATUS | channel, data1: key, data2: velocity },
            TypedMidiMessage::ControlChange { channel, number, value } =>
                RawMidiMessage { status: CONTROL_CHANGE_STATUS | channel, data1: number, data2: value },
        }
    }
}

/// A message on one of the sixteen channels survives encoding to wire bytes and
/// parsing them back.
pub proof fn lemma_parse_after_encode(m: TypedMidiMessage)
    requires
        channel_of(m) < 16,
    ensures
        parsed(m.spec_raw()) == Some(m),
{
    match m {
        TypedMidiMessage::NoteOn { channel, .. } => lemma_status_of_channel(0x90, channel),
        TypedMidiMessage::NoteOff { channel, .. } => lemma_status_of_channel(0x80, channel),
        TypedMidiMessage::ControlChange { channel, .. } => lemma_status_of_channel(0xb0, channel),
    }
}

pub fn get_message_type_code(message: &RawMidiMessage) -> (r: u8)
    ensures
        r == status_kind(message.status) * 16,
{
    proof {
        lemma_status_nibbles(message.status);
    }
    message.status & 0b1111_0000
}

pub fn get_message_type(message: &RawMidiMessage) -> (r: MessageType)
    ensures
        r == (if status_kind(message.status) == 9 {
            MessageType::NoteOn
        } else if status_kind(message.status) == 8 {
            MessageType::NoteOff
        } else {
            MessageType::Other
        }),
{
    let code = get_message_type_code(message);
    if code == NOTE_ON_STATUS {
        MessageType::NoteOn
    } else if code == NOTE_OFF_STATUS {
        MessageType::NoteOff
    } else {
        MessageType::Other
    }
}

pub fn is_note_on(message: &RawMidiMessage) -> (r: bool)
    ensures
        r == (status_kind(message.status) == 9),
{
    get_message_type_code(message) == NOTE_ON_STATUS
}

pub fn is_note_off(message: &RawMidiMessage) -> (r: bool)
    ensures
        r == (status_kind(message.status) == 8),
{
    get_message_type_code(message) == NOTE_OFF_STATUS
}

pub fn is_note_message(message: &RawMidiMessage) -> (r: bool)
    ensures
        r == (status_kind(message.status) == 9 || status_kind(message.status) == 8),
{
    is_note_on(message) || is_note_off(message)
}

pub fn get_note_key(message: &RawMidiMessage) -> (r: u8)
    ensures
        r == message.data1,
{
    message.data1
}

pub fn get_note_channel(message: &RawMidiMessage) -> (r: u8)
    ensures
        r == status_channel(message.status),
{
    proof {
        lemma_status_nibbles(message.status);
    }
    message.status & 0b0000_1111
}

pub fn get_note_velocity(message: &RawMidiMessage) -> (r: u8)
    ensures
        r == message.data2,
{
    message.data2
}

/// Reads a note or control-change message from its wire bytes; `None` for any
/// other kind of message.
pub fn parse_midi_message(raw_message: &RawMidiMessage) -> (r: Option<TypedMidiMessage>)
    ensures
        r == parsed(*raw_message),
{
    let code = get_message_type_code(raw_message);
    let channel = get_note_channel(raw_message);
    if code == NOTE_ON_STATUS {
        Some(TypedMidiMessage::NoteOn {
            channel,
            key: get_note_key(raw_message),
            velocity: get_note_velocity(raw_message),
        })
    } else if code == NOTE_OFF_STATUS {
        Some(TypedMidiMessage::NoteOff {
            channel,
            key: get_note_key(raw_message),
            velocity: get_note_velocity(raw_message),
        })
    } else if code == CONTROL_CHANGE_STATUS {
        Some(TypedMidiMessage::ControlChange {
            channel,
            number: raw_message.data1,
            value: raw_message.data2,
        })
    } else {
        None
    }
}

/// Reads a timestamped wire message; the timestamp is kept.
pub fn parse_midi_event(raw_event: &RawMidiEvent) -> (r: Option<AbsMidiEvent>)
    ensures
        r == (match parsed(raw_event.message) {
            Some(message) => Some(AbsMidiEvent { message, timestamp: raw_event.timestamp }),
            None => None,
        }),
{
    match parse_midi_message(&raw_event.message) {
        Some(message) => Some(AbsMidiEvent { message, timestamp: raw_event.timestamp }),
        None => None,
    }
}

/// Index of a (channel, key) pair in the dense table of open notes.
pub open spec fn note_slot(channel: u8, key: u8) -> int {
    channel as int * 128 + key as int
}

/// Open notes by slot and finished notes, after one more event.
pub open spec fn pair_step(
    open: Map<int, Note>,
    done: Seq<Note>,
    event: QuantMidiEvent,
) -> (Map<int, Note>, Seq<Note>) {
    match event.message {
        TypedMidiMessage::NoteOn { channel, key, velocity } => if channel < 16 && key < 128 {
            let slot = note_slot(channel, key);
            let fresh = Note { start_quant: event.quant, end_quant: Quant(0), key, channel, velocity };
            let done2 = if open.contains_key(slot) {
                done.push(Note { end_quant: event.quant, ..open[slot] })
            } else {
                done
            };
            (open.insert(slot, fresh), done2)
        } else {
            (open, done)
        },
        TypedMidiMessage::NoteOff { channel, key, .. } => if channel < 16 && key < 128
            && open.contains_key(note_slot(channel, key)) {
            let slot = note_slot(channel, key);
            (open.remove(slot), done.push(Note { end_quant: event.quant, ..open[slot] }))
        } else {
            (open, done)
        },
        TypedMidiMessage::ControlChange { .. } => (open, done),
    }
}

/// Open notes by slot and finished notes after a sequence of events. A note-on
/// closes the note already open on its channel and key, if any, and opens a new
/// one; a note-off closes the open note, if any; events on a channel above 15 or a
/// key above 127, and control changes, are passed over.
pub open spec fn pairing(events: Seq<QuantMidiEvent>) -> (Map<int, Note>, Seq<Note>)
    decreases events.len(),
{
    if events.len() == 0 {
        (Map::empty(), Seq::empty())
    } else {
        let prev = pairing(events.drop_last());
        pair_step(prev.0, prev.1, events.last())
    }
}

/// The notes that a buffer of events describes, in the order in which they end.
pub open spec fn notes_of(events: Seq<QuantMidiEvent>) -> Seq<Note> {
    pairing(events).1
}

/// Pairs note-on and note-off events into notes; a note still open at the end of
/// the buffer is dropped.
pub fn events_to_notes(replay_buffer: &[QuantMidiEvent]) -> (r: Vec<Note>)
    ensures
        r@ == notes_of(replay_buffer@),
{
    let table_len: usize = AMOUNT_OF_MIDI_CHANNELS * AMOUNT_OF_MIDI_KEYS;
    let mut note_tracker: Vec<Option<Note>> = Vec::new();
    while note_tracker.len() < table_len
        invariant
            table_len == 2048,
            note_tracker@.len() <= table_len,
            forall|s: int| 0 <= s < note_tracker@.len() ==> #[trigger] note_tracker@[s] == None::<Note>,
        decreases table_len - note_tracker@.len(),
    {
        note_tracker.push(None);
    }
    let mut result: Vec<Note> = Vec::new();
    let mut i: usize = 0;
    proof {
        assert(replay_buffer@.take(0) =~= Seq::<QuantMidiEvent>::empty());
    }
    while i < replay_buffer.len()
        invariant
            i <= replay_buffer@.len(),
            note_tracker@.len() == 2048,
            result@ == pairing(replay_buffer@.take(i as int)).1,
            forall|s: int|
                0 <= s < 2048 ==> #[trigger] note_tracker@[s] == (if pairing(
                    replay_buffer@.take(i as int),
                ).0.contains_key(s) {
                    Some(pairing(replay_buffer@.take(i as int)).0[s])
                } else {
                    None
                }),
        decreases replay_buffer@.len() - i,
    {
        let event = replay_buffer[i];
        proof {
            assert(replay_buffer@.take(i + 1).drop_last() =~= replay_buffer@.take(i as int));
            assert(replay_buffer@.take(i + 1).last() == event);
        }
        match event.message {
            TypedMidiMessage::NoteOn { channel, key, velocity } => {
                if channel < 16 && key < 128 {
                    let slot = channel as usize * AMOUNT_OF_MIDI_KEYS + key as usize;
                    if let Some(note) = note_tracker[slot] {
                        result.push(Note {
                            start_quant: note.start_quant,
                            end_quant: event.quant,
                            key: note.key,
                            channel: note.channel,
                            velocity: note.velocity,
                        });
                    }
                    note_tracker.set(slot, Some(Note {
                        start_quant: event.quant,
                        end_quant: Quant(0),
                        key,
                        channel,
                        velocity,
                    }));
                }
            },
            TypedMidiMessage::NoteOff { channel, key, .. } => {
                if channel < 16 && key < 128 {
                    let slot = channel as usize * AMOUNT_OF_MIDI_KEYS + key as usize;
                    if let Some(note) = note_tracker[slot] {
                        result.push(Note {
                            start_quant: note.start_quant,
                            end_quant: event.quant,
                            key: note.key,
                            channel: note.channel,
                            velocity: note.velocity,
                        });
                        note_tracker.set(slot, None);
                    }
                }
            },
            TypedMidiMessage::ControlChange { .. } => {},
        }
        i = i + 1;
    }
    proof {
        assert(replay_buffer@.take(i as int) =~= replay_buffer@);
    }
    result
}

/// Which notes a device is sounding, one flag per (channel, key) slot.
pub struct SoundingNotes {
    notes: Vec<bool>,
}

/// The note-off that silences the note in `slot`.
pub open spec fn release_of(slot: int) -> TypedMidiMessage {
    TypedMidiMessage::NoteOff { channel: (slot / 128) as u8, key: (slot % 128) as u8, velocity: 0 }
}

/// The note-offs for every sounding slot among `slots`, in slot order.
pub open spec fn releases(table: Seq<bool>, slots: Seq<int>) -> Seq<TypedMidiMessage> {
    slots.filter_map(|s: int| if table[s] { Some(release_of(s)) } else { None })
}

/// The slots `0..n`.
pub open spec fn slots_up_to(n: int) -> Seq<int> {
    Seq::new(n as nat, |s: int| s)
}

impl View for SoundingNotes {
    type V = Seq<bool>;

    closed spec fn view(&self) -> Seq<bool> {
        self.notes@
    }
}

impl SoundingNotes {
    /// One flag for each of the sixteen channels' 128 keys.
    pub open spec fn wf(&self) -> bool {
        self@.len() == 2048
    }

    /// No note sounds.
    pub fn new() -> (r: SoundingNotes)
        ensures
            r.wf(),
            forall|s: int| 0 <= s < 2048 ==> !#[trigger] r@[s],
    {
        let mut notes: Vec<bool> = Vec::new();
        while notes.len() < AMOUNT_OF_MIDI_CHANNELS * AMOUNT_OF_MIDI_KEYS
            invariant
                notes@.len() <= 2048,
                forall|s: int| 0 <= s < notes@.len() ==> !#[trigger] notes@[s],
            decreases 2048 - notes@.len(),
        {
            notes.push(false);
        }
        SoundingNotes { notes }
    }

    /// Notes what a message sent to the device does: a note-on makes its note
    /// sound and a note-off silences it. Other messages, and notes outside the
    /// sixteen channels and 128 keys, change nothing.
    pub fn feed(&mut self, midi_message: TypedMidiMessage)
        requires
            old(self).wf(),
        ensures
            final(self).wf(),
            final(self)@ == (match midi_message {
                TypedMidiMessage::NoteOn { channel, key, .. } if channel < 16 && key < 128 =>
                    old(self)@.update(note_slot(channel, key), true),
                TypedMidiMessage::NoteOff { channel, key, .. } if channel < 16 && key < 128 =>
                    old(self)@.update(note_slot(channel, key), false),
                _ => old(self)@,
            }),
    {
        match midi_message {
            TypedMidiMessage::NoteOn { channel, key, .. } => {
                if channel < 16 && key < 128 {
                    self.notes.set(channel as usize * AMOUNT_OF_MIDI_KEYS + key as usize, true);
                }
            },
            TypedMidiMessage::NoteOff { channel, key, .. } => {
                if channel < 16 && key < 128 {
                    self.notes.set(channel as usize * AMOUNT_OF_MIDI_KEYS + key as usize, false);
                }
            },
            TypedMidiMessage::ControlChange { .. } => {},
        }
    }

    /// The note-offs that silence every sounding note, by channel and then key;
    /// afterwards no note sounds.
    pub fn close_opened_notes(&mut self) -> (r: Vec<TypedMidiMessage>)
        requires
            old(self).wf(),
        ensures
            final(self).wf(),
            r@ == releases(old(self)@, slots_up_to(2048)),
            forall|s: int| 0 <= s < 2048 ==> !#[trigger] final(self)@[s],
    {
        let ghost table = self@;
        let ghost f = |s: int| if table[s] { Some(release_of(s)) } else { None::<TypedMidiMessage> };
        let mut result: Vec<TypedMidiMessage> = Vec::new();
        let mut slot: usize = 0;
        proof {
            assert(slots_up_to(2048).take(0) =~= Seq::<int>::empty());
        }
        while slot < AMOUNT_OF_MIDI_CHANNELS * AMOUNT_OF_MIDI_KEYS
            invariant
                table.len() == 2048,
                self@.len() == 2048,
                slot <= 2048,
                f == (|s: int| if table[s] { Some(release_of(s)) } else { None::<TypedMidiMessage> }),
                result@ == slots_up_to(2048).take(slot as int).filter_map(f),
                forall|s: int| 0 <= s < slot ==> !#[trigger] self@[s],
                forall|s: int| slot <= s < 2048 ==> #[trigger] self@[s] == table[s],
            decreases 2048 - slot,
        {
            proof {
                assert(slots_up_to(2048).take(slot + 1).drop_last() =~= slots_up_to(2048).take(slot as int));
                assert(slots_up_to(2048).take(slot + 1).last() == slot as int);
            }
            if self.notes[slot] {
                let channel = (slot / AMOUNT_OF_MIDI_KEYS) as u8;
                let key = (slot % AMOUNT_OF_MIDI_KEYS) as u8;
                result.push(TypedMidiMessage::NoteOff { channel, key, velocity: 0 });
                self.notes.set(slot, false);
            }
            proof {
                assert(result@ =~= slots_up_to(2048).take(slot + 1).filter_map(f));
            }
            slot = slot + 1;
        }
        proof {
            assert(slots_up_to(2048).take(2048) =~= slots_up_to(2048));
        }
        result
    }
}

} // verus!
