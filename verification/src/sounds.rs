//! The sounds that are playing, counted by name, and what a key press on a sound does.
use vstd::prelude::*;

use crate::messages::{LogKind, LogMessage, MidiThreadMessage};
use crate::osd::{distinct_keys, lemma_keys_len, lemma_map_of_at, lemma_put, lemma_remove, map_of};

verus! {

/// A key press plays its sound when it is harder than 60, and stops it otherwise.
pub open spec fn plays_sound(velocity: u8) -> bool {
    velocity > 60
}

/// Whether a key press with this velocity plays its sound (else it stops it).
pub fn plays_on(velocity: u8) -> (r: bool)
    ensures
        r == plays_sound(velocity),
{
    velocity > 60
}

/// How many playbacks of each sound are running, by sound name.
pub struct SoundBook {
    playing: Vec<(String, usize)>,
}

impl SoundBook {
    #[verifier::type_invariant]
    spec fn names_are_distinct(self) -> bool {
        distinct_keys(self.playing@)
    }
}

impl View for SoundBook {
    type V = Map<Seq<char>, usize>;

    closed spec fn view(&self) -> Map<Seq<char>, usize> {
        map_of(self.playing@)
    }
}

/// Position of the entry named `key`, or the number of entries when none is.
fn position(lines: &Vec<(String, usize)>, key: &String) -> (r: usize)
    ensures
        r <= lines.len(),
        r < lines.len() ==> lines@[r as int].0@ == key@,
        r == lines.len() ==> forall|j: int| 0 <= j < lines.len() ==> (#[trigger] lines@[j]).0@ != key@,
{
    let n = lines.len();
    let mut i: usize = 0;
    while i < n && !(lines[i].0 == *key)
        invariant
            n == lines.len(),
            i <= n,
            forall|j: int| 0 <= j < i ==> (#[trigger] lines@[j]).0@ != key@,
        decreases n - i,
    {
        i = i + 1;
    }
    i
}

/// A name that no entry has is not in the map.
proof fn lemma_absent(s: Seq<(String, usize)>, k: Seq<char>)
    requires
        forall|j: int| 0 <= j < s.len() ==> (#[trigger] s[j]).0@ != k,
    ensures
        !map_of(s).dom().contains(k),
{
    if map_of(s).dom().contains(k) {
        let j = choose|j: int| 0 <= j < s.len() && (#[trigger] s[j]).0@ == k;
        assert(s[j].0@ != k);
    }
}

impl SoundBook {
    /// No sound playing.
    pub fn new() -> (r: Self)
        ensures
            r@ == Map::<Seq<char>, usize>::empty(),
    {
        let r = SoundBook { playing: Vec::new() };
        assert(r@ =~= Map::<Seq<char>, usize>::empty());
        r
    }

    /// One more playback of the sound `name` has started (the count is held at
    /// `usize::MAX`).
    pub fn started(&mut self, name: &str)
        ensures
            final(self)@ == old(self)@.insert(
                name@,
                if !old(self)@.dom().contains(name@) {
                    1usize
                } else if old(self)@[name@] < usize::MAX {
                    (old(self)@[name@] + 1) as usize
                } else {
                    usize::MAX
                },
            ),
    {
        proof {
            use_type_invariant(&*self);
        }
        let key = String::from_str(name);
        let mut lines: Vec<(String, usize)> = Vec::new();
        std::mem::swap(&mut lines, &mut self.playing);
        let ghost s = lines@;
        let i = position(&lines, &key);
        let ghost kv = key@;
        let n = lines.len();
        if i < n {
            proof {
                lemma_map_of_at(s, i as int);
                assert forall|j: int| 0 <= j < s.len() && j != i implies (#[trigger] s[j]).0@ != kv by {}
            }
            let c = lines[i].1;
            let next = if c < usize::MAX {
                c + 1
            } else {
                c
            };
            lines.set(i, (key, next));
            proof {
                lemma_put(s, lines@, i as int, kv, next);
            }
        } else {
            proof {
                lemma_absent(s, kv);
            }
            lines.push((key, 1));
            proof {
                lemma_put(s, lines@, n as int, kv, 1usize);
            }
        }
        self.playing = lines;
    }

    /// Every playback of the sound `name` is stopped: returns how many there were, and
    /// forgets the name.
    pub fn stopped(&mut self, name: &str) -> (r: usize)
        ensures
            r == (if old(self)@.dom().contains(name@) {
                old(self)@[name@]
            } else {
                0
            }),
            final(self)@ == old(self)@.remove(name@),
    {
        proof {
            use_type_invariant(&*self);
        }
        let key = String::from_str(name);
        let mut lines: Vec<(String, usize)> = Vec::new();
        std::mem::swap(&mut lines, &mut self.playing);
        let ghost s = lines@;
        let i = position(&lines, &key);
        let ghost kv = key@;
        let r = if i < lines.len() {
            proof {
                lemma_map_of_at(s, i as int);
            }
            let (_, c) = lines.remove(i);
            proof {
                lemma_remove(s, i as int);
            }
            c
        } else {
            proof {
                lemma_absent(s, kv);
                assert(map_of(s).remove(kv) =~= map_of(s));
            }
            0
        };
        self.playing = lines;
        r
    }

    /// Stops every sound: returns how many names were playing, and forgets them all.
    pub fn reset(&mut self) -> (r: usize)
        ensures
            r == old(self)@.dom().len(),
            final(self)@ == Map::<Seq<char>, usize>::empty(),
    {
        proof {
            use_type_invariant(&*self);
            lemma_keys_len(self.playing@);
        }
        let r = self.playing.len();
        self.playing = Vec::new();
        assert(self@ =~= Map::<Seq<char>, usize>::empty());
        r
    }
}

/// The message that tells the window a sound was played or stopped.
pub fn sound_message(name: &str, played: bool) -> (r: MidiThreadMessage)
    ensures
        r matches MidiThreadMessage::UpdateSound { name: n, played: p } && n@ == name@ && p == played,
{
    MidiThreadMessage::UpdateSound { name: String::from_str(name), played }
}

/// The report that the sounds were reset, sent once for each name that was playing.
pub fn reset_reports(count: usize) -> (r: Vec<MidiThreadMessage>)
    ensures
        r.len() == count,
        forall|i: int|
            0 <= i < r.len() ==> (#[trigger] r@[i] matches MidiThreadMessage::Log(l) && l.text@
                == "Sounds were reset"@ && l.kind == LogKind::Info),
{
    let mut out: Vec<MidiThreadMessage> = Vec::new();
    for i in 0..count
        invariant
            out.len() == i,
            forall|j: int|
                0 <= j < i ==> (#[trigger] out@[j] matches MidiThreadMessage::Log(l) && l.text@
                    == "Sounds were reset"@ && l.kind == LogKind::Info),
    {
        out.push(LogMessage::message(String::from_str("Sounds were reset"), LogKind::Info));
    }
    out
}

} // verus!
