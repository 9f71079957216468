//! The keymap: which MIDI note switches which rack file. Each non-blank line reads
//! `channel:note name`, and `name` becomes `<custom dir>/name.txt`.
use vstd::prelude::*;

use crate::midi::{channel_from_index, default_velocity, note_from_u8_lossy, MidiEvent};
use crate::number::{parse_u8, parse_u8_spec};
use crate::paths::{join_path, path_joined, path_with_extension, with_extension};
use crate::rack::RackFile;
use crate::text::{
    chars_of, find_char, find_char_in, lemma_split_lines_step, split_lines, substring, trim,
    trim_bounds,
};

verus! {

/// Why a keymap line could not be read.
#[derive(Clone, Copy, Debug, PartialEq, Eq, Structural)]
pub enum KeymapError {
    /// The line has no space between the key and the name.
    MissingSpace,
    /// The key has no `:` between channel and note.
    MissingColon,
    /// The channel is not a number from 0 to 255.
    ChannelNotNumber,
    /// The note is not a number from 0 to 255.
    NoteNotNumber,
    /// The channel is not a MIDI channel index (0 to 15).
    ChannelOutOfRange,
}

impl KeymapError {
    /// The text that reports this error.
    pub fn message(&self) -> (r: String)
        ensures
            r@ == keymap_error_text(*self),
    {
        match self {
            KeymapError::MissingSpace => String::from_str("Expected ' '"),
            KeymapError::MissingColon => String::from_str("Expected ':'"),
            KeymapError::ChannelNotNumber => String::from_str("Channel should be a number"),
            KeymapError::NoteNotNumber => String::from_str("Note should be a number"),
            KeymapError::ChannelOutOfRange => String::from_str("Failed to parse MIDI channel"),
        }
    }
}

/// The text that reports a keymap error.
pub open spec fn keymap_error_text(e: KeymapError) -> Seq<char> {
    match e {
        KeymapError::MissingSpace => "Expected ' '"@,
        KeymapError::MissingColon => "Expected ':'"@,
        KeymapError::ChannelNotNumber => "Channel should be a number"@,
        KeymapError::NoteNotNumber => "Note should be a number"@,
        KeymapError::ChannelOutOfRange => "Failed to parse MIDI channel"@,
    }
}

/// A note that switches a rack file.
#[derive(Debug)]
pub struct IncludeEntry {
    pub message: MidiEvent,
    pub path: String,
}

/// All entries of the keymap, in file order.
#[derive(Debug)]
pub struct Keymap {
    pub entries: Vec<IncludeEntry>,
}

impl View for IncludeEntry {
    type V = (MidiEvent, Seq<char>);

    open spec fn view(&self) -> (MidiEvent, Seq<char>) {
        (self.message, self.path@)
    }
}

impl View for Keymap {
    type V = Seq<(MidiEvent, Seq<char>)>;

    open spec fn view(&self) -> Seq<(MidiEvent, Seq<char>)> {
        self.entries@.map_values(|e: IncludeEntry| e@)
    }
}

/// What a trimmed keymap line reads as: the note-on message of its key (with velocity 0)
/// and its name. The key is the part before the first space, and is split at its
/// first `:` into channel and note; the note keeps its 7 low bits.
pub open spec fn keymap_line(line: Seq<char>) -> Result<(MidiEvent, Seq<char>), KeymapError> {
    match find_char(line, ' ') {
        None => Err(KeymapError::MissingSpace),
        Some(i) => {
            let key = line.take(i);
            let name = line.skip(i + 1);
            match find_char(key, ':') {
                None => Err(KeymapError::MissingColon),
                Some(j) => match parse_u8_spec(key.take(j)) {
                    None => Err(KeymapError::ChannelNotNumber),
                    Some(c) => match parse_u8_spec(key.skip(j + 1)) {
                        None => Err(KeymapError::NoteNotNumber),
                        Some(n) => if c < 16 {
                            Ok((MidiEvent::NoteOn { channel: c, note: (n % 128) as u8, velocity: 0 }, name))
                        } else {
                            Err(KeymapError::ChannelOutOfRange)
                        },
                    },
                },
            }
        },
    }
}

/// The rack file a keymap name stands for: `<custom dir>/<name>` with extension `txt`.
pub open spec fn keymap_path(name: Seq<char>) -> Seq<char> {
    path_with_extension(path_joined("D:/Misc/EqualizerAPO/"@, name), "txt"@)
}

/// `r` with `es` in front of its entries (an error stays as it is).
pub open spec fn prepend_entries(
    es: Seq<(MidiEvent, Seq<char>)>,
    r: Result<Seq<(MidiEvent, Seq<char>)>, KeymapError>,
) -> Result<Seq<(MidiEvent, Seq<char>)>, KeymapError> {
    match r {
        Ok(rest) => Ok(es + rest),
        Err(e) => Err(e),
    }
}

/// The entries of these lines: blank lines are skipped, and the first line that
/// cannot be read makes the whole keymap fail.
pub open spec fn keymap_lines(ls: Seq<Seq<char>>) -> Result<Seq<(MidiEvent, Seq<char>)>, KeymapError>
    decreases ls.len(),
{
    if ls.len() == 0 {
        Ok(Seq::empty())
    } else {
        let l = trim(ls[0]);
        if l.len() == 0 {
            keymap_lines(ls.drop_first())
        } else {
            match keymap_line(l) {
                Err(e) => Err(e),
                Ok((m, name)) => prepend_entries(seq![(m, keymap_path(name))], keymap_lines(ls.drop_first())),
            }
        }
    }
}

/// The entries of a keymap text, one line at a time.
pub open spec fn parse_keymap(text: Seq<char>) -> Result<Seq<(MidiEvent, Seq<char>)>, KeymapError> {
    keymap_lines(split_lines(text))
}

/// The note-on message that `e` is, as (channel, note).
pub open spec fn note_key(e: MidiEvent) -> Option<(u8, u8)> {
    match e {
        MidiEvent::NoteOn { channel, note, .. } => Some((channel, note)),
        _ => None,
    }
}

/// Position of the first entry whose message is a note-on of this channel and note.
pub open spec fn first_entry(es: Seq<(MidiEvent, Seq<char>)>, channel: u8, note: u8) -> Option<int>
    decreases es.len(),
{
    if es.len() == 0 {
        None
    } else if note_key(es[0].0) == Some((channel, note)) {
        Some(0)
    } else {
        match first_entry(es.drop_first(), channel, note) {
            Some(i) => Some(i + 1),
            None => None,
        }
    }
}

/// `first_entry` gives the first match, and `None` exactly when no entry matches.
pub proof fn lemma_first_entry(es: Seq<(MidiEvent, Seq<char>)>, channel: u8, note: u8)
    ensures
        match first_entry(es, channel, note) {
            Some(i) => 0 <= i < es.len() && note_key(es[i].0) == Some((channel, note)) && forall|j: int|
                0 <= j < i ==> note_key(#[trigger] es[j].0) != Some((channel, note)),
            None => forall|j: int| 0 <= j < es.len() ==> note_key(#[trigger] es[j].0) != Some((channel, note)),
        },
    decreases es.len(),
{
    if es.len() > 0 && note_key(es[0].0) != Some((channel, note)) {
        lemma_first_entry(es.drop_first(), channel, note);
        assert forall|j: int| 0 < j < es.len() implies es[j] == es.drop_first()[j - 1] by {}
    }
}

impl Keymap {
    /// Reads one trimmed keymap line into its message and name.
    pub fn parse_line(line: &str) -> (r: Result<(MidiEvent, String), KeymapError>)
        ensures
            match r {
                Ok((m, name)) => keymap_line(line@) == Ok::<(MidiEvent, Seq<char>), KeymapError>((m, name@)),
                Err(e) => keymap_line(line@) == Err::<(MidiEvent, Seq<char>), KeymapError>(e),
            },
    {
        let v = chars_of(line);
        let n = v.len();
        let i = find_char_in(&v, 0, n, ' ');
        proof {
            assert(v@.subrange(0, n as int) =~= line@);
        }
        if i == n {
            return Err(KeymapError::MissingSpace);
        }
        let j = find_char_in(&v, 0, i, ':');
        let ghost key = line@.take(i as int);
        proof {
            assert(key =~= v@.subrange(0, i as int));
        }
        if j == i {
            return Err(KeymapError::MissingColon);
        }
        proof {
            assert(key.take(j as int) =~= v@.subrange(0, j as int));
            assert(key.skip(j + 1) =~= v@.subrange(j + 1, i as int));
            assert(line@.skip(i + 1) =~= v@.subrange(i + 1, n as int));
        }
        let channel_text = substring(line, &v, 0, j);
        let channel = match parse_u8(channel_text.as_str()) {
            Some(c) => c,
            None => {
                return Err(KeymapError::ChannelNotNumber);
            },
        };
        let note_text = substring(line, &v, j + 1, i);
        let note = match parse_u8(note_text.as_str()) {
            Some(x) => x,
            None => {
                return Err(KeymapError::NoteNotNumber);
            },
        };
        let channel = match channel_from_index(channel) {
            Some(c) => c,
            None => {
                return Err(KeymapError::ChannelOutOfRange);
            },
        };
        let note = note_from_u8_lossy(note);
        let velocity = default_velocity();
        let name = substring(line, &v, i + 1, n);
        Ok((MidiEvent::NoteOn { channel, note, velocity }, name))
    }

    /// Reads a keymap text: blank lines are skipped, every other line is trimmed and read
    /// with [`Keymap::parse_line`], and its name becomes `<custom dir>/<name>.txt`.
    pub fn parse(text: &str) -> (r: Result<Keymap, KeymapError>)
        ensures
            match r {
                Ok(k) => parse_keymap(text@) == Ok::<Seq<(MidiEvent, Seq<char>)>, KeymapError>(k@),
                Err(e) => parse_keymap(text@) == Err::<Seq<(MidiEvent, Seq<char>)>, KeymapError>(e),
            },
    {
        let dir = RackFile::get_custom_dir();
        let v = chars_of(text);
        let n = v.len();
        let mut entries: Vec<IncludeEntry> = Vec::new();
        let mut pos: usize = 0;
        proof {
            assert(v@.skip(0) =~= v@);
            assert(entries@.map_values(|e: IncludeEntry| e@) =~= Seq::<(MidiEvent, Seq<char>)>::empty());
        }
        while pos < n
            invariant
                v@ == text@,
                n == v.len(),
                pos <= n,
                dir@ == "D:/Misc/EqualizerAPO/"@,
                parse_keymap(text@) == prepend_entries(
                    entries@.map_values(|e: IncludeEntry| e@),
                    keymap_lines(split_lines(v@.skip(pos as int))),
                ),
            decreases n - pos,
        {
            let e = find_char_in(&v, pos, n, '\n');
            let ghost rest = v@.skip(pos as int);
            let ghost line = v@.subrange(pos as int, e as int);
            proof {
                assert forall|j: int| 0 <= j < e - pos implies rest[j] != '\n' by {
                    assert(rest[j] == v@[pos + j]);
                }
                if e < n {
                    assert(rest[e - pos] == v@[e as int]);
                }
                lemma_split_lines_step(rest, e - pos);
                assert(rest.take(e - pos) =~= line);
                if e < n {
                    assert(rest.skip(e - pos + 1) =~= v@.skip(e + 1));
                } else {
                    assert(rest =~= line);
                    assert(v@.skip(n as int).len() == 0);
                    assert(split_lines(v@.skip(n as int)) =~= Seq::<Seq<char>>::empty());
                }
                assert(split_lines(rest)[0] == line);
                assert(split_lines(rest).drop_first() =~= split_lines(
                    v@.skip(if e < n { e + 1 } else { n as int }),
                ));
            }
            let (a, b) = trim_bounds(&v, pos, e);
            let next = if e < n {
                e + 1
            } else {
                n
            };
            let ghost lines = split_lines(rest);
            proof {
                assert(lines.len() > 0);
                assert(trim(lines[0]) == v@.subrange(a as int, b as int));
                assert(lines.drop_first() == split_lines(v@.skip(next as int)));
            }
            if a < b {
                let trimmed = substring(text, &v, a, b);
                match Keymap::parse_line(trimmed.as_str()) {
                    Err(err) => {
                        return Err(err);
                    },
                    Ok((message, name)) => {
                        let joined = join_path(dir.as_str(), name.as_str());
                        proof {
                            reveal_strlit("txt");
                        }
                        let path = with_extension(joined.as_str(), "txt");
                        let ghost before = entries@.map_values(|e: IncludeEntry| e@);
                        entries.push(IncludeEntry { message, path });
                        proof {
                            let x = seq![(message, keymap_path(name@))];
                            assert(entries@.map_values(|e: IncludeEntry| e@) =~= before + x);
                            assert(keymap_lines(lines) == prepend_entries(x, keymap_lines(lines.drop_first())));
                            match keymap_lines(lines.drop_first()) {
                                Ok(tail) => {
                                    assert(before + (x + tail) =~= (before + x) + tail);
                                },
                                Err(_) => {},
                            }
                        }
                    },
                }
            }
            else {
                proof {
                    assert(keymap_lines(lines) == keymap_lines(lines.drop_first()));
                }
            }
            pos = next;
        }
        proof {
            assert(v@.skip(n as int).len() == 0);
            assert(split_lines(v@.skip(n as int)) =~= Seq::<Seq<char>>::empty());
            assert(entries@.map_values(|e: IncludeEntry| e@) + Seq::<(MidiEvent, Seq<char>)>::empty()
                =~= entries@.map_values(|e: IncludeEntry| e@));
        }
        Ok(Keymap { entries })
    }

    /// Position of the first entry whose message is a note-on of this channel and note.
    pub fn entry_for(&self, channel: u8, note: u8) -> (r: Option<usize>)
        ensures
            match r {
                Some(i) => first_entry(self@, channel, note) == Some(i as int),
                None => first_entry(self@, channel, note) is None,
            },
    {
        let n = self.entries.len();
        let mut i: usize = 0;
        while i < n
            invariant
                n == self.entries.len(),
                i <= n,
                forall|j: int| 0 <= j < i ==> note_key(#[trigger] self@[j].0) != Some((channel, note)),
            decreases n - i,
        {
            let hit = match self.entries[i].message {
                MidiEvent::NoteOn { channel: c, note: m, .. } => c == channel && m == note,
                _ => false,
            };
            proof {
                assert(self@[i as int] == self.entries@[i as int]@);
            }
            if hit {
                proof {
                    lemma_first_entry(self@, channel, note);
                    match first_entry(self@, channel, note) {
                        Some(k) => {
                            if k < i {
                                assert(note_key(self@[k].0) != Some((channel, note)));
                            } else if k > i {
                                assert(note_key(self@[i as int].0) != Some((channel, note)));
                            }
                        },
                        None => {
                            assert(note_key(self@[i as int].0) != Some((channel, note)));
                        },
                    }
                }
                return Some(i);
            }
            i = i + 1;
        }
        proof {
            lemma_first_entry(self@, channel, note);
            if let Some(k) = first_entry(self@, channel, note) {
                assert(note_key(self@[k].0) != Some((channel, note)));
            }
        }
        None
    }
}

} // verus!
