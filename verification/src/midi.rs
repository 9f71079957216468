//! MIDI messages as the library reads them, and the calls into `wmidi` that
//! decode raw bytes, check channel numbers and fold note numbers.
use vstd::prelude::*;
use wmidi::MidiMessage as M;

verus! {

/// A decoded MIDI message, with channels as indices 0..=15.
#[derive(Clone, Copy, Debug, PartialEq, Eq, Structural)]
pub enum MidiEvent {
    NoteOn { channel: u8, note: u8, velocity: u8 },
    NoteOff { channel: u8, note: u8, velocity: u8 },
    PitchBend { channel: u8, bend: u16 },
    ControlChange { channel: u8, control: u8, value: u8 },
    /// Any other kind of MIDI message.
    Other,
}

/// Names what `wmidi::MidiMessage::from_bytes` makes of these bytes: the message, or the
/// text of its error.
pub uninterp spec fn midi_decoding(bytes: Seq<u8>) -> Result<MidiEvent, Seq<char>>;

/// The decoding result with its error as text.
pub open spec fn decoding_view(r: Result<MidiEvent, String>) -> Result<MidiEvent, Seq<char>> {
    match r {
        Ok(e) => Ok(e),
        Err(t) => Err(t@),
    }
}

/// What a decoded message says of the bytes it came from: the status byte's high half
/// gives the kind and its low half the channel; the data bytes are the note (or
/// control) and the velocity (or value), each below 128, and a pitch bend is the two
/// data bytes, low one first. A note-on with velocity 0 is read as a note-off.
pub open spec fn decoded_from(b: Seq<u8>, e: MidiEvent) -> bool {
    match e {
        MidiEvent::NoteOn { channel, note, velocity } => {
            &&& b.len() >= 3
            &&& b[0] / 16 == 9
            &&& channel == b[0] % 16
            &&& note == b[1] && note < 128
            &&& velocity == b[2] && 0 < velocity < 128
        },
        MidiEvent::NoteOff { channel, note, velocity } => {
            &&& b.len() >= 3
            &&& (b[0] / 16 == 8 || (b[0] / 16 == 9 && b[2] == 0))
            &&& channel == b[0] % 16
            &&& note == b[1] && note < 128
            &&& velocity == b[2] && velocity < 128
        },
        MidiEvent::PitchBend { channel, bend } => {
            &&& b.len() >= 3
            &&& b[0] / 16 == 14
            &&& channel == b[0] % 16
            &&& b[1] < 128 && b[2] < 128
            &&& bend == b[1] + 128 * b[2]
        },
        MidiEvent::ControlChange { channel, control, value } => {
            &&& b.len() >= 3
            &&& b[0] / 16 == 11
            &&& channel == b[0] % 16
            &&& control == b[1] && control < 128
            &&& value == b[2] && value < 128
        },
        MidiEvent::Other => b.len() >= 1 && b[0] >= 128,
    }
}

/// Decodes raw MIDI bytes with `wmidi::MidiMessage::from_bytes`.
/// Trusted: the result is `midi_decoding` of the bytes; no bytes, or a first byte that is
/// not a status byte, is an error; note-on, note-off, pitch-bend and control-change
/// messages keep their channel index and data values as `decoded_from` states, every other
/// kind becomes `Other`, and an error becomes its `Display` text.
#[verifier::external_body]
fn decode_midi(bytes: &[u8]) -> (r: Result<MidiEvent, String>)
    ensures
        decoding_view(r) == midi_decoding(bytes@),
        (bytes@.len() == 0 || bytes@[0] < 128) ==> r is Err,
        r matches Ok(e) ==> decoded_from(bytes@, e),
{
    match M::from_bytes(bytes) {
        Err(e) => Err(e.to_string()),
        Ok(m) => Ok(match m {
            M::NoteOn(c, n, v) => MidiEvent::NoteOn { channel: c.index(), note: n.into(), velocity: v.into() },
            M::NoteOff(c, n, v) => MidiEvent::NoteOff { channel: c.index(), note: n.into(), velocity: v.into() },
            M::PitchBendChange(c, b) => MidiEvent::PitchBend { channel: c.index(), bend: b.into() },
            M::ControlChange(c, f, v) => MidiEvent::ControlChange { channel: c.index(), control: f.into(), value: v.into() },
            _ => MidiEvent::Other,
        }),
    }
}

impl MidiEvent {
    /// Decodes raw MIDI bytes: the message, or the text of the reason they do not decode.
    pub fn from_bytes(bytes: &[u8]) -> (r: Result<MidiEvent, String>)
        ensures
            decoding_view(r) == midi_decoding(bytes@),
            (bytes@.len() == 0 || bytes@[0] < 128) ==> r is Err,
            r matches Ok(e) ==> decoded_from(bytes@, e),
    {
        decode_midi(bytes)
    }
}

/// Checks a channel index with `wmidi::Channel::from_index`.
/// Trusted: indices 0 to 15 are channels (and keep their index), larger ones are refused.
#[verifier::external_body]
pub(crate) fn channel_from_index(index: u8) -> (r: Option<u8>)
    ensures
        r == (if index < 16 { Some(index) } else { None::<u8> }),
{
    match wmidi::Channel::from_index(index) {
        Ok(c) => Some(c.index()),
        Err(_) => None,
    }
}

/// Makes a note with `wmidi::Note::from_u8_lossy`.
/// Trusted: only the 7 low bits of the number are kept.
#[verifier::external_body]
pub(crate) fn note_from_u8_lossy(n: u8) -> (r: u8)
    ensures
        r == n % 128,
{
    u8::from(wmidi::Note::from_u8_lossy(n))
}

/// The velocity of `wmidi::U7::default()`.
/// Trusted: it is 0 (`U7` derives `Default` over a `u8`).
#[verifier::external_body]
pub(crate) fn default_velocity() -> (r: u8)
    ensures
        r == 0,
{
    u8::from(wmidi::U7::default())
}

} // verus!
