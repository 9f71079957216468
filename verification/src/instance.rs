//! The MIDI thread's decisions: which controller port and audio device to use,
//! and what each incoming MIDI message asks for.
use vstd::prelude::*;

use crate::keymap::{first_entry, Keymap};
use crate::midi::{midi_decoding, MidiEvent};
use crate::number::{decimal, decimal_u8};
use crate::text::{chars_of, contains_seq, contains_text, trim, trim_bounds};

verus! {

/// Why a note could not be handled.
#[derive(Clone, Copy, Debug, PartialEq, Eq, Structural)]
pub enum InstanceError {
    /// No keymap was loaded.
    MissingKeymap,
}

impl InstanceError {
    /// The text that reports this error.
    pub fn message(&self) -> (r: String)
        ensures
            r@ == "Missing keymap"@,
    {
        String::from_str("Missing keymap")
    }
}

/// What an incoming MIDI message asks the thread to do.
#[derive(Debug, PartialEq, Eq)]
pub enum MidiReaction {
    /// A key was pressed: stop all sounds first when `reset`, then act on the key
    /// (`Ok(Some(path))`: switch the include of that rack file; `Ok(None)`: the key is
    /// not mapped).
    Note { reset: bool, outcome: Result<Option<String>, InstanceError> },
    /// The pitch wheel moved.
    PitchBend { channel: u8, bend: u16 },
    /// A controller moved (nothing is done with it).
    Control { channel: u8, control: u8, value: u8 },
    /// A key was released (nothing is done with it).
    Ignore,
    /// A kind of message that is only reported.
    Unrecognized,
}

/// The outcome of a key press with its path as text.
pub open spec fn outcome_view(o: Result<Option<String>, InstanceError>) -> Result<Option<Seq<char>>, InstanceError> {
    match o {
        Ok(Some(p)) => Ok(Some(p@)),
        Ok(None) => Ok(None),
        Err(e) => Err(e),
    }
}

/// What a press of `channel`/`note` does with this keymap: fail without a keymap,
/// else the rack file of the first entry for that key, if any.
pub open spec fn note_outcome(km: Option<Seq<(MidiEvent, Seq<char>)>>, channel: u8, note: u8) -> Result<
    Option<Seq<char>>,
    InstanceError,
> {
    match km {
        None => Err(InstanceError::MissingKeymap),
        Some(es) => match first_entry(es, channel, note) {
            Some(i) => Ok(Some(es[i].1)),
            None => Ok(None),
        },
    }
}

/// The key that stops all sounds: note 35 on channel index 2.
pub open spec fn is_reset_key(channel: u8, note: u8) -> bool {
    channel == 2 && note == 35
}

/// The reaction to `e` with this keymap.
pub open spec fn reaction_matches(r: MidiReaction, e: MidiEvent, km: Option<Seq<(MidiEvent, Seq<char>)>>) -> bool {
    match e {
        MidiEvent::NoteOn { channel, note, .. } => (r matches MidiReaction::Note { reset, outcome } && reset
            == is_reset_key(channel, note) && outcome_view(outcome) == note_outcome(km, channel, note)),
        MidiEvent::NoteOff { .. } => r is Ignore,
        MidiEvent::PitchBend { channel, bend } => r == (MidiReaction::PitchBend { channel, bend }),
        MidiEvent::ControlChange { channel, control, value } => r == (MidiReaction::Control {
            channel,
            control,
            value,
        }),
        MidiEvent::Other => r is Unrecognized,
    }
}

/// The decimal numbers of `bs` joined by `", "`.
pub open spec fn join_decimals(bs: Seq<u8>) -> Seq<char>
    decreases bs.len(),
{
    if bs.len() == 0 {
        Seq::empty()
    } else if bs.len() == 1 {
        decimal(bs[0] as nat)
    } else {
        join_decimals(bs.drop_last()) + ", "@ + decimal(bs.last() as nat)
    }
}

/// The report of bytes that do not decode as a MIDI message.
pub open spec fn read_error_text(bs: Seq<u8>, err: Seq<char>) -> Seq<char> {
    "Failed to read MIDI message '"@ + join_decimals(bs) + "': "@ + err
}

/// Position of the first name that contains `needle`.
pub open spec fn first_containing(names: Seq<Seq<char>>, needle: Seq<char>) -> Option<int>
    decreases names.len(),
{
    if names.len() == 0 {
        None
    } else if contains_seq(names[0], needle) {
        Some(0)
    } else {
        match first_containing(names.drop_first(), needle) {
            Some(i) => Some(i + 1),
            None => None,
        }
    }
}

proof fn lemma_first_containing(names: Seq<Seq<char>>, needle: Seq<char>)
    ensures
        match first_containing(names, needle) {
            Some(i) => 0 <= i < names.len() && contains_seq(names[i], needle) && forall|j: int|
                0 <= j < i ==> !contains_seq(#[trigger] names[j], needle),
            None => forall|j: int| 0 <= j < names.len() ==> !contains_seq(#[trigger] names[j], needle),
        },
    decreases names.len(),
{
    if names.len() > 0 && !contains_seq(names[0], needle) {
        lemma_first_containing(names.drop_first(), needle);
        assert forall|j: int| 0 < j < names.len() implies names[j] == names.drop_first()[j - 1] by {}
    }
}

/// Position of the first of `names` that contains `needle`.
pub fn find_containing(names: &Vec<String>, needle: &str) -> (r: Option<usize>)
    ensures
        match r {
            Some(i) => first_containing(names@.map_values(|s: String| s@), needle@) == Some(i as int),
            None => first_containing(names@.map_values(|s: String| s@), needle@) is None,
        },
{
    let ghost ns = names@.map_values(|s: String| s@);
    let n = names.len();
    let mut i: usize = 0;
    while i < n
        invariant
            n == names.len(),
            ns == names@.map_values(|s: String| s@),
            i <= n,
            forall|j: int| 0 <= j < i ==> !contains_seq(#[trigger] ns[j], needle@),
        decreases n - i,
    {
        if contains_text(names[i].as_str(), needle) {
            proof {
                assert(ns[i as int] == names@[i as int]@);
                lemma_first_containing(ns, needle@);
                match first_containing(ns, needle@) {
                    Some(k) => {
                        if k < i {
                            assert(!contains_seq(ns[k], needle@));
                        } else if k > i {
                            assert(!contains_seq(ns[i as int], needle@));
                        }
                    },
                    None => {
                        assert(!contains_seq(ns[i as int], needle@));
                    },
                }
            }
            return Some(i);
        }
        proof {
            assert(ns[i as int] == names@[i as int]@);
        }
        i = i + 1;
    }
    proof {
        lemma_first_containing(ns, needle@);
        if let Some(k) = first_containing(ns, needle@) {
            assert(!contains_seq(ns[k], needle@));
        }
    }
    None
}

/// The MIDI thread's state: the keymap it acts on.
pub struct Instance {
    keymap: Option<Keymap>,
}

impl View for Instance {
    type V = Option<Seq<(MidiEvent, Seq<char>)>>;

    closed spec fn view(&self) -> Option<Seq<(MidiEvent, Seq<char>)>> {
        match self.keymap {
            Some(k) => Some(k@),
            None => None,
        }
    }
}

impl Instance {
    /// A thread with no keymap loaded yet.
    pub fn new() -> (r: Self)
        ensures
            r@ is None,
    {
        Instance { keymap: None }
    }

    /// Position of the MIDI input port to use: the first whose name contains `MPK`.
    pub fn port_index(port_names: &Vec<String>) -> (r: Option<usize>)
        ensures
            match r {
                Some(i) => first_containing(port_names@.map_values(|s: String| s@), "MPK"@) == Some(
                    i as int,
                ),
                None => first_containing(port_names@.map_values(|s: String| s@), "MPK"@) is None,
            },
    {
        find_containing(port_names, "MPK")
    }

    /// Position of the audio device to play on: the first whose name contains the
    /// trimmed text of the device file.
    pub fn audio_device_index(device_names: &Vec<String>, device_file: &str) -> (r: Option<usize>)
        ensures
            match r {
                Some(i) => first_containing(device_names@.map_values(|s: String| s@), trim(device_file@))
                    == Some(i as int),
                None => first_containing(device_names@.map_values(|s: String| s@), trim(device_file@)) is None,
            },
    {
        let v = chars_of(device_file);
        let (a, b) = trim_bounds(&v, 0, v.len());
        proof {
            assert(v@.subrange(0, v@.len() as int) =~= device_file@);
        }
        let wanted = crate::text::substring(device_file, &v, a, b);
        find_containing(device_names, wanted.as_str())
    }

    /// Takes the result of loading the keymap: keeps the keymap when it loaded, and
    /// returns the report of the error when it did not.
    pub fn load_keymap(&mut self, loaded: Result<Keymap, String>) -> (r: Option<String>)
        ensures
            match loaded {
                Ok(k) => final(self)@ == Some(k@) && r is None,
                Err(e) => final(self)@ is None && (r matches Some(t) && t@ == "Failed to load keymap: "@ + e@),
            },
    {
        match loaded {
            Ok(k) => {
                self.keymap = Some(k);
                None
            },
            Err(e) => {
                self.keymap = None;
                let mut t = String::from_str("Failed to load keymap: ");
                t.append(e.as_str());
                Some(t)
            },
        }
    }

    /// What a press of `channel`/`note` does.
    pub fn on_note(&self, channel: u8, note: u8, velocity: u8) -> (r: Result<Option<String>, InstanceError>)
        ensures
            outcome_view(r) == note_outcome(self@, channel, note),
    {
        match &self.keymap {
            None => Err(InstanceError::MissingKeymap),
            Some(k) => match k.entry_for(channel, note) {
                Some(i) => {
                    proof {
                        crate::keymap::lemma_first_entry(k@, channel, note);
                        assert(k@[i as int] == k.entries@[i as int]@);
                    }
                    Ok(Some(k.entries[i].path.clone()))
                },
                None => Ok(None),
            },
        }
    }

    /// What a decoded MIDI message asks for.
    pub fn on_message(&self, event: MidiEvent) -> (r: MidiReaction)
        ensures
            reaction_matches(r, event, self@),
            event matches MidiEvent::NoteOn { channel, note, .. } ==> (r matches MidiReaction::Note {
                reset,
                ..
            } && (reset <==> (channel == 2 && note == 35))),
    {
        match event {
            MidiEvent::NoteOn { channel, note, velocity } => {
                let reset = channel == 2 && note == 35;
                let outcome = self.on_note(channel, note, velocity);
                MidiReaction::Note { reset, outcome }
            },
            MidiEvent::NoteOff { .. } => MidiReaction::Ignore,
            MidiEvent::PitchBend { channel, bend } => MidiReaction::PitchBend { channel, bend },
            MidiEvent::ControlChange { channel, control, value } => MidiReaction::Control {
                channel,
                control,
                value,
            },
            MidiEvent::Other => MidiReaction::Unrecognized,
        }
    }

    /// The `channel:note` text of a key press, for debugging.
    pub fn on_message_debug(&self, event: MidiEvent) -> (r: Option<String>)
        ensures
            match event {
                MidiEvent::NoteOn { channel, note, .. } => (r matches Some(t) && t@ == decimal(channel as nat)
                    + ":"@ + decimal(note as nat)),
                _ => r is None,
            },
    {
        match event {
            MidiEvent::NoteOn { channel, note, .. } => {
                let mut t = decimal_u8(channel);
                t.append(":");
                let n = decimal_u8(note);
                t.append(n.as_str());
                Some(t)
            },
            _ => None,
        }
    }

    /// What raw MIDI bytes ask for: the reaction to the decoded message, or the report of
    /// bytes that do not decode.
    pub fn on_bytes(&self, bytes: &[u8]) -> (r: Result<MidiReaction, String>)
        ensures
            match midi_decoding(bytes@) {
                Ok(e) => (r matches Ok(x) && reaction_matches(x, e, self@)),
                Err(t) => (r matches Err(s) && s@ == read_error_text(bytes@, t)),
            },
    {
        match MidiEvent::from_bytes(bytes) {
            Ok(e) => Ok(self.on_message(e)),
            Err(t) => Err(read_error(bytes, t.as_str())),
        }
    }
}

/// The report of bytes that do not decode as a MIDI message.
fn read_error(bytes: &[u8], err: &str) -> (r: String)
    ensures
        r@ == read_error_text(bytes@, err@),
{
    let mut joined = String::new();
    let n = bytes.len();
    proof {
        assert(bytes@.take(0) =~= Seq::<u8>::empty());
    }
    for i in 0..n
        invariant
            n == bytes@.len(),
            joined@ == join_decimals(bytes@.take(i as int)),
    {
        let d = decimal_u8(bytes[i]);
        let ghost prev = joined@;
        let ghost next = bytes@.take(i + 1);
        proof {
            assert(next.drop_last() =~= bytes@.take(i as int));
            assert(next.last() == bytes@[i as int]);
        }
        if i > 0 {
            joined.append(", ");
        }
        joined.append(d.as_str());
        proof {
            if i == 0 {
                assert(next =~= seq![bytes@[0]]);
                assert(joined@ =~= decimal(bytes@[0] as nat));
            } else {
                assert(joined@ =~= prev + ", "@ + decimal(next.last() as nat));
            }
        }
    }
    proof {
        assert(bytes@.take(n as int) =~= bytes@);
    }
    let mut r = String::from_str("Failed to read MIDI message '");
    r.append(joined.as_str());
    r.append("': ");
    r.append(err);
    r
}

} // verus!
