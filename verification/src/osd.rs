//! The window's on-screen display: lines keyed by a name, replaced by newer lines
//! of the same name, and dropped once expired; and how the window reacts to the
//! MIDI thread's reports and to a click on the tray icon.
use vstd::prelude::*;

use crate::messages::{LogKind, MidiThreadMessage, SLEEP_TIME_MILLIS};
use crate::paths::{file_name_or_path, FileNameOrPathTrait};
use crate::text_line::{elapsed_nanos, elapsed_since, expired_at, TextLine};

verus! {

/// The shown content of a line: text, kind and creation time.
pub type LineView = (Seq<char>, LogKind, i128);

/// No two entries share a key.
pub open spec fn distinct_keys<V>(s: Seq<(String, V)>) -> bool {
    forall|i: int, j: int|
        0 <= i < s.len() && 0 <= j < s.len() && i != j ==> (#[trigger] s[i]).0@ != (#[trigger] s[j]).0@
}

/// Some entry has key `k`.
pub open spec fn has_key<V>(s: Seq<(String, V)>, k: Seq<char>) -> bool {
    exists|i: int| 0 <= i < s.len() && (#[trigger] s[i]).0@ == k
}

/// The map from key to line that the entries make.
pub open spec fn map_of<V: View>(s: Seq<(String, V)>) -> Map<Seq<char>, V::V> {
    Map::new(
        |k: Seq<char>| has_key(s, k),
        |k: Seq<char>| s[choose|i: int| 0 <= i < s.len() && (#[trigger] s[i]).0@ == k].1@,
    )
}

/// Entry `i` is what the map holds for its key.
pub proof fn lemma_map_of_at<V: View>(s: Seq<(String, V)>, i: int)
    requires
        distinct_keys(s),
        0 <= i < s.len(),
    ensures
        map_of(s).dom().contains(s[i].0@),
        map_of(s)[s[i].0@] == s[i].1@,
{
    let k = s[i].0@;
    assert(has_key(s, k));
    let c = choose|j: int| 0 <= j < s.len() && (#[trigger] s[j]).0@ == k;
    if c != i {
        assert(s[c].0@ != s[i].0@);
    }
}

/// Writing entry `i` with key `k`, where no other entry has that key (in place of entry
/// `i`, which has key `k`, or after the last entry), keeps the keys distinct and sets the map at `k`.
pub proof fn lemma_put<V: View>(s: Seq<(String, V)>, t: Seq<(String, V)>, i: int, k: Seq<char>, v: V::V)
    requires
        distinct_keys(s),
        0 <= i <= s.len(),
        t.len() == (if i < s.len() { s.len() } else { s.len() + 1 }),
        t[i].0@ == k,
        t[i].1@ == v,
        forall|j: int| 0 <= j < s.len() && j != i ==> #[trigger] t[j] == s[j],
        forall|j: int| 0 <= j < s.len() && j != i ==> (#[trigger] s[j]).0@ != k,
        i < s.len() ==> s[i].0@ == k,
    ensures
        distinct_keys(t),
        map_of(t) == map_of(s).insert(k, v),
{
    assert forall|a: int, b: int|
        0 <= a < t.len() && 0 <= b < t.len() && a != b implies (#[trigger] t[a]).0@ != (
        #[trigger] t[b]).0@ by {
        if a == i {
            assert(t[b] == s[b]);
        } else if b == i {
            assert(t[a] == s[a]);
        } else {
            assert(t[a] == s[a] && t[b] == s[b]);
        }
    }
    lemma_map_of_at(t, i);
    assert forall|key: Seq<char>| key != k implies (has_key(t, key) == has_key(s, key)) by {
        if has_key(t, key) {
            let j = choose|j: int| 0 <= j < t.len() && (#[trigger] t[j]).0@ == key;
            assert(j != i);
            assert(t[j] == s[j]);
        }
        if has_key(s, key) {
            let j = choose|j: int| 0 <= j < s.len() && (#[trigger] s[j]).0@ == key;
            assert(t[j] == s[j]);
        }
    }
    assert forall|key: Seq<char>| key != k && has_key(s, key) implies map_of(t)[key] == map_of(s)[key] by {
        let j = choose|j: int| 0 <= j < s.len() && (#[trigger] s[j]).0@ == key;
        assert(t[j] == s[j]);
        lemma_map_of_at(t, j);
        lemma_map_of_at(s, j);
    }
    assert(map_of(t) =~= map_of(s).insert(k, v));
}

/// Taking entry `i` out keeps the keys distinct and drops its key from the map.
pub proof fn lemma_remove<V: View>(s: Seq<(String, V)>, i: int)
    requires
        distinct_keys(s),
        0 <= i < s.len(),
    ensures
        distinct_keys(s.remove(i)),
        map_of(s.remove(i)) == map_of(s).remove(s[i].0@),
{
    let t = s.remove(i);
    let k = s[i].0@;
    assert forall|j: int| 0 <= j < t.len() implies #[trigger] t[j] == s[if j < i { j } else { j + 1 }] by {}
    assert forall|a: int, b: int|
        0 <= a < t.len() && 0 <= b < t.len() && a != b implies (#[trigger] t[a]).0@ != (
        #[trigger] t[b]).0@ by {
        let sa = if a < i { a } else { a + 1 };
        let sb = if b < i { b } else { b + 1 };
        assert(t[a] == s[sa] && t[b] == s[sb]);
    }
    assert forall|x: Seq<char>| has_key(t, x) == (has_key(s, x) && x != k) by {
        if has_key(t, x) {
            let j = choose|j: int| 0 <= j < t.len() && (#[trigger] t[j]).0@ == x;
            let sj = if j < i { j } else { j + 1 };
            assert(t[j] == s[sj]);
            assert(s[sj].0@ != s[i].0@);
        }
        if has_key(s, x) && x != k {
            let j = choose|j: int| 0 <= j < s.len() && (#[trigger] s[j]).0@ == x;
            assert(j != i);
            let tj = if j < i { j } else { j - 1 };
            assert(t[tj] == s[j]);
        }
    }
    assert forall|x: Seq<char>| has_key(t, x) implies map_of(t)[x] == map_of(s)[x] by {
        let j = choose|j: int| 0 <= j < t.len() && (#[trigger] t[j]).0@ == x;
        let sj = if j < i { j } else { j + 1 };
        assert(t[j] == s[sj]);
        lemma_map_of_at(t, j);
        lemma_map_of_at(s, sj);
    }
    assert(map_of(t) =~= map_of(s).remove(k));
}

/// The lines of the on-screen display, by key.
pub struct OsdLines {
    lines: Vec<(String, TextLine)>,
}

impl OsdLines {
    #[verifier::type_invariant]
    spec fn keys_are_distinct(self) -> bool {
        distinct_keys(self.lines@)
    }
}

impl View for OsdLines {
    type V = Map<Seq<char>, LineView>;

    closed spec fn view(&self) -> Map<Seq<char>, LineView> {
        map_of(self.lines@)
    }
}

/// The map after dropping every line that has expired at `now`.
pub open spec fn unexpired(m: Map<Seq<char>, LineView>, now: i128) -> Map<Seq<char>, LineView> {
    Map::new(|k: Seq<char>| m.dom().contains(k) && !expired_at(m[k].2, now), |k: Seq<char>| m[k])
}

/// The key and the text the window shows when a rack is switched.
pub open spec fn rack_line(path: Seq<char>, enabled: bool) -> (Seq<char>, Seq<char>) {
    let name = file_name_or_path(path);
    (name, "Rack '"@ + name + "' is "@ + if enabled { "on"@ } else { "off"@ })
}

/// The display after the window reads one message from the MIDI thread at `now`:
/// a log line is shown under its own text, a rack switch under the rack's file name,
/// and nothing else is shown.
pub open spec fn osd_after(m: Map<Seq<char>, LineView>, msg: MidiThreadMessage, now: i128) -> Map<
    Seq<char>,
    LineView,
> {
    match msg {
        MidiThreadMessage::Log(l) => m.insert(l.text@, (l.text@, l.kind, now)),
        MidiThreadMessage::UpdateRack { path, enabled, .. } => {
            let (key, text) = rack_line(path@, enabled);
            m.insert(key, (text, LogKind::Info, now))
        },
        MidiThreadMessage::UpdateSound { .. } => m,
        MidiThreadMessage::Ping => m,
    }
}

impl OsdLines {
    /// An empty display.
    pub fn new() -> (r: Self)
        ensures
            r@ == Map::<Seq<char>, LineView>::empty(),
    {
        let r = OsdLines { lines: Vec::new() };
        assert(r@ =~= Map::<Seq<char>, LineView>::empty());
        r
    }

    /// Whether nothing is shown.
    pub fn is_empty(&self) -> (r: bool)
        ensures
            r == (self@.dom() =~= Set::<Seq<char>>::empty()),
    {
        proof {
            use_type_invariant(self);
            if self.lines@.len() > 0 {
                lemma_map_of_at(self.lines@, 0);
            }
        }
        self.lines.len() == 0
    }

    /// The key at position `i` of the display's order.
    pub closed spec fn key_at(&self, i: int) -> Seq<char> {
        self.lines@[i].0@
    }

    /// Number of lines shown; positions `0..len` hold each shown key exactly once.
    pub fn len(&self) -> (r: usize)
        ensures
            r == self@.dom().len(),
            forall|i: int, j: int| 0 <= i < r && 0 <= j < r && i != j ==> self.key_at(i) != self.key_at(j),
            forall|i: int| 0 <= i < r ==> self@.dom().contains(#[trigger] self.key_at(i)),
            forall|k: Seq<char>| #[trigger] self@.dom().contains(k) ==> exists|i: int| 0 <= i < r && self.key_at(i) == k,
    {
        proof {
            use_type_invariant(self);
            lemma_keys_len(self.lines@);
            assert forall|i: int| 0 <= i < self.lines@.len() implies self@.dom().contains(#[trigger] self.key_at(i)) by {
                lemma_map_of_at(self.lines@, i);
            }
            assert forall|k: Seq<char>| #[trigger] self@.dom().contains(k) implies exists|i: int| 0 <= i < self.lines@.len() && self.key_at(i) == k by {
                let i = choose|i: int| 0 <= i < self.lines@.len() && (#[trigger] self.lines@[i]).0@ == k;
                assert(self.key_at(i) == k);
            }
        }
        self.lines.len()
    }

    /// The line shown under `key`, if any.
    pub fn get(&self, key: &str) -> (r: Option<&TextLine>)
        ensures
            match r {
                Some(l) => self@.dom().contains(key@) && self@[key@] == l@,
                None => !self@.dom().contains(key@),
            },
    {
        proof {
            use_type_invariant(self);
        }
        let wanted = String::from_str(key);
        let n = self.lines.len();
        let mut i: usize = 0;
        while i < n
            invariant
                n == self.lines.len(),
                i <= n,
                distinct_keys(self.lines@),
                wanted@ == key@,
                forall|j: int| 0 <= j < i ==> (#[trigger] self.lines@[j]).0@ != key@,
            decreases n - i,
        {
            if self.lines[i].0 == wanted {
                proof {
                    lemma_map_of_at(self.lines@, i as int);
                    assert(self.lines@[i as int].0@ == key@);
                }
                return Some(&self.lines[i].1);
            }
            i = i + 1;
        }
        proof {
            if self@.dom().contains(key@) {
                let j = choose|j: int| 0 <= j < self.lines@.len() && (#[trigger] self.lines@[j]).0@ == key@;
                assert(self.lines@[j].0@ != key@);
            }
        }
        None
    }

    /// The key and line at position `i`.
    pub fn entry_at(&self, i: usize) -> (r: (&String, &TextLine))
        requires
            i < self@.dom().len(),
        ensures
            r.0@ == self.key_at(i as int),
            self@.dom().contains(r.0@),
            self@[r.0@] == r.1@,
    {
        proof {
            use_type_invariant(self);
            lemma_keys_len(self.lines@);
            lemma_map_of_at(self.lines@, i as int);
        }
        (&self.lines[i].0, &self.lines[i].1)
    }

    /// Shows `line` under `key`, replacing what was shown there.
    pub fn insert(&mut self, key: String, line: TextLine)
        ensures
            final(self)@ == old(self)@.insert(key@, line@),
    {
        proof {
            use_type_invariant(&*self);
        }
        let mut lines: Vec<(String, TextLine)> = Vec::new();
        std::mem::swap(&mut lines, &mut self.lines);
        let ghost s = lines@;
        let n = lines.len();
        let mut i: usize = 0;
        while i < n && !(lines[i].0 == key)
            invariant
                n == lines.len(),
                lines@ == s,
                i <= n,
                forall|j: int| 0 <= j < i ==> (#[trigger] s[j]).0@ != key@,
            decreases n - i,
        {
            i = i + 1;
        }
        let ghost kv = key@;
        let ghost lv = line@;
        if i < n {
            lines.set(i, (key, line));
            proof {
                assert forall|j: int| 0 <= j < s.len() && j != i implies (#[trigger] s[j]).0@ != kv by {
                    assert(s[i as int].0@ == kv);
                }
                lemma_put(s, lines@, i as int, kv, lv);
            }
        } else {
            lines.push((key, line));
            proof {
                lemma_put(s, lines@, n as int, kv, lv);
            }
        }
        self.lines = lines;
    }
}

impl OsdLines {
    /// Drops every line that has expired at `now`.
    pub fn retain_unexpired(&mut self, now: i128)
        ensures
            final(self)@ == unexpired(old(self)@, now),
    {
        proof {
            use_type_invariant(&*self);
        }
        let mut lines: Vec<(String, TextLine)> = Vec::new();
        std::mem::swap(&mut lines, &mut self.lines);
        let ghost s = lines@;
        let n = lines.len();
        let mut kept: Vec<(String, TextLine)> = Vec::new();
        let mut i: usize = 0;
        proof {
            assert(s.skip(0) =~= s);
        }
        while i < n
            invariant
                n == s.len(),
                distinct_keys(s),
                i <= n,
                lines@ == s.skip(i as int),
                distinct_keys(kept@),
                forall|a: int| 0 <= a < kept@.len() ==> exists|j: int| 0 <= j < i && #[trigger] kept@[a] == s[j],
                forall|a: int| 0 <= a < kept@.len() ==> !expired_at((#[trigger] kept@[a]).1@.2, now),
                forall|j: int| 0 <= j < i && !expired_at((#[trigger] s[j]).1@.2, now) ==> has_key(kept@, s[j].0@),
            decreases n - i,
        {
            let e = lines.remove(0);
            proof {
                assert(e == s[i as int]);
                assert(lines@ =~= s.skip(i + 1));
                e.1.lemma_view();
            }
            if !e.1.is_expired_at(now) {
                let ghost before = kept@;
                kept.push(e);
                proof {
                    let t = kept@;
                    assert(t[before.len() as int] == s[i as int]);
                    assert forall|a: int| 0 <= a < t.len() implies exists|j: int| 0 <= j < i + 1 && #[trigger] t[a] == s[j] by {
                        if a < before.len() {
                            assert(t[a] == before[a]);
                            let j = choose|j: int| 0 <= j < i && #[trigger] before[a] == s[j];
                            assert(t[a] == s[j]);
                        } else {
                            assert(t[a] == s[i as int]);
                        }
                    }
                    assert(distinct_keys(t)) by {
                        assert forall|a: int, b: int|
                            0 <= a < t.len() && 0 <= b < t.len() && a != b implies (#[trigger] t[a]).0@
                            != (#[trigger] t[b]).0@ by {
                            if a == before.len() {
                                assert(t[b] == before[b]);
                                let j = choose|j: int| 0 <= j < i && #[trigger] before[b] == s[j];
                                assert(s[j].0@ != s[i as int].0@);
                            } else if b == before.len() {
                                assert(t[a] == before[a]);
                                let j = choose|j: int| 0 <= j < i && #[trigger] before[a] == s[j];
                                assert(s[j].0@ != s[i as int].0@);
                            } else {
                                assert(t[a] == before[a] && t[b] == before[b]);
                            }
                        }
                    }
                    assert forall|a: int| 0 <= a < t.len() implies !expired_at((#[trigger] t[a]).1@.2, now) by {
                        if a < before.len() {
                            assert(t[a] == before[a]);
                        }
                    }
                    assert forall|j: int| 0 <= j < i + 1 && !expired_at((#[trigger] s[j]).1@.2, now) implies has_key(t, s[j].0@) by {
                        if j < i {
                            let a = choose|a: int| 0 <= a < before.len() && (#[trigger] before[a]).0@ == s[j].0@;
                            assert(t[a] == before[a]);
                        } else {
                            assert(t[before.len() as int] == s[j]);
                        }
                    }
                }
            } else {
                proof {
                    assert forall|j: int| 0 <= j < i + 1 && !expired_at((#[trigger] s[j]).1@.2, now) implies has_key(kept@, s[j].0@) by {
                        if j == i {
                            assert(s[j] == e);
                        }
                    }
                }
            }
            i = i + 1;
        }
        proof {
            let t = kept@;
            let m = map_of(s);
            assert forall|k: Seq<char>| has_key(t, k) == (m.dom().contains(k) && !expired_at(m[k].2, now)) by {
                if has_key(t, k) {
                    let a = choose|a: int| 0 <= a < t.len() && (#[trigger] t[a]).0@ == k;
                    let j = choose|j: int| 0 <= j < n && #[trigger] t[a] == s[j];
                    lemma_map_of_at(s, j);
                }
                if m.dom().contains(k) && !expired_at(m[k].2, now) {
                    let j = choose|j: int| 0 <= j < s.len() && (#[trigger] s[j]).0@ == k;
                    lemma_map_of_at(s, j);
                }
            }
            assert forall|k: Seq<char>| has_key(t, k) implies map_of(t)[k] == m[k] by {
                let a = choose|a: int| 0 <= a < t.len() && (#[trigger] t[a]).0@ == k;
                let j = choose|j: int| 0 <= j < n && #[trigger] t[a] == s[j];
                lemma_map_of_at(s, j);
                lemma_map_of_at(t, a);
            }
            assert(map_of(t) =~= unexpired(m, now));
        }
        self.lines = kept;
    }
}

/// The MIDI thread counts as running when its last ping is less than two sleep periods
/// old (a clock that reads earlier than the ping counts as one period).
pub open spec fn thread_running(last_contact: i128, now: i128) -> bool {
    let elapsed_ms = if now >= last_contact {
        (elapsed_since(last_contact, now) / 1_000_000) as int
    } else {
        SLEEP_TIME_MILLIS as int
    };
    elapsed_ms < 2 * SLEEP_TIME_MILLIS
}

/// What a click on the tray icon does to the MIDI thread.
#[derive(Clone, Copy, Debug, PartialEq, Eq, Structural)]
pub enum ThreadToggle {
    Start,
    Stop,
}

/// Whether the MIDI thread is running, from the time of its last ping and the time now
/// (both in nanoseconds since the UNIX epoch).
pub fn midi_thread_running(last_contact: i128, now: i128) -> (r: bool)
    ensures
        r == thread_running(last_contact, now),
{
    let elapsed_ms: u128 = if now >= last_contact {
        elapsed_nanos(last_contact, now) / 1_000_000
    } else {
        SLEEP_TIME_MILLIS as u128
    };
    elapsed_ms < (SLEEP_TIME_MILLIS as u128) * 2
}

impl OsdLines {
    /// Reads one message from the MIDI thread at `now`: shows log lines and rack
    /// switches; returns whether it was a ping.
    pub fn apply_message(&mut self, msg: &MidiThreadMessage, now: i128) -> (r: bool)
        ensures
            final(self)@ == osd_after(old(self)@, *msg, now),
            r == (*msg is Ping),
    {
        match msg {
            MidiThreadMessage::Log(l) => {
                let line = TextLine::new_at(l.text.as_str(), l.kind, now);
                self.insert(l.text.clone(), line);
                false
            },
            MidiThreadMessage::UpdateRack { path, enabled, .. } => {
                let name = path.file_name_safe();
                let mut text = String::from_str("Rack '");
                text.append(name.as_str());
                text.append("' is ");
                if *enabled {
                    text.append("on");
                } else {
                    text.append("off");
                }
                proof {
                    let (k, t) = rack_line(path@, *enabled);
                    assert(k == name@);
                    assert(text@ =~= t);
                }
                let line = TextLine::new_at(text.as_str(), LogKind::Info, now);
                self.insert(name, line);
                false
            },
            MidiThreadMessage::UpdateSound { .. } => false,
            MidiThreadMessage::Ping => true,
        }
    }

    /// Handles a click on the tray icon: starts the MIDI thread when it is not running,
    /// else stops it; shows what it does (stopping is shown only when there is a
    /// thread to tell).
    pub fn toggle_thread(&mut self, running: bool, has_sender: bool, now: i128) -> (r: ThreadToggle)
        ensures
            !running ==> r == ThreadToggle::Start && final(self)@ == old(self)@.insert(
                "midi_thread"@,
                ("Starting the thread"@, LogKind::Info, now),
            ),
            running ==> r == ThreadToggle::Stop && final(self)@ == if has_sender {
                old(self)@.insert("midi_thread"@, ("Closing the thread"@, LogKind::Info, now))
            } else {
                old(self)@
            },
    {
        if !running {
            self.insert(String::from_str("midi_thread"), TextLine::new_at("Starting the thread", LogKind::Info, now));
            ThreadToggle::Start
        } else {
            if has_sender {
                self.insert(String::from_str("midi_thread"), TextLine::new_at("Closing the thread", LogKind::Info, now));
            }
            ThreadToggle::Stop
        }
    }
}

/// The number of keys is the number of entries.
pub proof fn lemma_keys_len<V: View>(s: Seq<(String, V)>)
    requires
        distinct_keys(s),
    ensures
        map_of(s).dom().len() == s.len(),
        map_of(s).dom().finite(),
    decreases s.len(),
{
    if s.len() == 0 {
        assert(map_of(s).dom() =~= Set::<Seq<char>>::empty());
    } else {
        let t = s.drop_last();
        let k = s.last().0@;
        assert(distinct_keys(t)) by {
            assert forall|a: int, b: int|
                0 <= a < t.len() && 0 <= b < t.len() && a != b implies (#[trigger] t[a]).0@ != (
            #[trigger] t[b]).0@ by {
                assert(t[a] == s[a] && t[b] == s[b]);
            }
        }
        lemma_keys_len(t);
        assert(!has_key(t, k)) by {
            if has_key(t, k) {
                let j = choose|j: int| 0 <= j < t.len() && (#[trigger] t[j]).0@ == k;
                assert(t[j] == s[j]);
                assert(s[j].0@ != s[s.len() - 1].0@);
            }
        }
        assert forall|x: Seq<char>| has_key(s, x) == (has_key(t, x) || x == k) by {
            if has_key(s, x) && x != k {
                let j = choose|j: int| 0 <= j < s.len() && (#[trigger] s[j]).0@ == x;
                assert(j != s.len() - 1);
                assert(t[j] == s[j]);
            }
            if has_key(t, x) {
                let j = choose|j: int| 0 <= j < t.len() && (#[trigger] t[j]).0@ == x;
                assert(t[j] == s[j]);
            }
            if x == k {
                assert(s[s.len() - 1].0@ == k);
            }
        }
        assert(map_of(s).dom() =~= map_of(t).dom().insert(k));
    }
}

/// The key under which a message shows a line, if it shows one.
pub open spec fn message_key(msg: MidiThreadMessage) -> Option<Seq<char>> {
    match msg {
        MidiThreadMessage::Log(l) => Some(l.text@),
        MidiThreadMessage::UpdateRack { path, enabled, .. } => Some(rack_line(path@, enabled).0),
        _ => None,
    }
}

/// Some message of the frame shows a line under `k`.
pub open spec fn writes_key(msgs: Seq<(MidiThreadMessage, i128)>, k: Seq<char>) -> bool {
    exists|j: int| 0 <= j < msgs.len() && message_key((#[trigger] msgs[j]).0) == Some(k)
}

/// The display after reading the messages in order, each at its own clock reading.
pub open spec fn osd_after_all(m: Map<Seq<char>, LineView>, msgs: Seq<(MidiThreadMessage, i128)>) -> Map<
    Seq<char>,
    LineView,
>
    decreases msgs.len(),
{
    if msgs.len() == 0 {
        m
    } else {
        osd_after(osd_after_all(m, msgs.drop_last()), msgs.last().0, msgs.last().1)
    }
}

/// The clock reading of the last ping among the messages, or `last_contact` when none is a ping.
pub open spec fn last_ping(msgs: Seq<(MidiThreadMessage, i128)>, last_contact: i128) -> i128
    decreases msgs.len(),
{
    if msgs.len() == 0 {
        last_contact
    } else if msgs.last().0 is Ping {
        msgs.last().1
    } else {
        last_ping(msgs.drop_last(), last_contact)
    }
}

/// A line whose key no message writes stays as it was.
proof fn lemma_unwritten_kept(m: Map<Seq<char>, LineView>, msgs: Seq<(MidiThreadMessage, i128)>, k: Seq<char>)
    requires
        m.dom().contains(k),
        !writes_key(msgs, k),
    ensures
        osd_after_all(m, msgs).dom().contains(k),
        osd_after_all(m, msgs)[k] == m[k],
    decreases msgs.len(),
{
    if msgs.len() > 0 {
        let p = msgs.drop_last();
        assert(!writes_key(p, k)) by {
            if writes_key(p, k) {
                let j = choose|j: int| 0 <= j < p.len() && message_key((#[trigger] p[j]).0) == Some(k);
                assert(msgs[j] == p[j]);
            }
        }
        lemma_unwritten_kept(m, p, k);
        assert(message_key(msgs[msgs.len() - 1].0) != Some(k));
    }
}

impl OsdLines {
    /// Reads the messages that came during one frame, each with the clock reading at
    /// which it was taken, then drops the lines that have expired at `now`. Returns the
    /// reading of the last ping, or `last_contact` when no ping came.
    pub fn read_frame(&mut self, msgs: &Vec<(MidiThreadMessage, i128)>, last_contact: i128, now: i128) -> (r: i128)
        ensures
            final(self)@ == unexpired(osd_after_all(old(self)@, msgs@), now),
            r == last_ping(msgs@, last_contact),
            forall|k: Seq<char>| #[trigger] final(self)@.dom().contains(k) ==> !expired_at(final(self)@[k].2, now),
            forall|k: Seq<char>|
                #[trigger] old(self)@.dom().contains(k) && !expired_at(old(self)@[k].2, now) && !writes_key(msgs@, k)
                    ==> final(self)@.dom().contains(k) && final(self)@[k] == old(self)@[k],
    {
        let ghost m0 = self@;
        let mut last = last_contact;
        let n = msgs.len();
        let mut i: usize = 0;
        proof {
            assert(msgs@.take(0) =~= Seq::<(MidiThreadMessage, i128)>::empty());
        }
        while i < n
            invariant
                n == msgs.len(),
                i <= n,
                self@ == osd_after_all(m0, msgs@.take(i as int)),
                last == last_ping(msgs@.take(i as int), last_contact),
            decreases n - i,
        {
            let ghost before = msgs@.take(i as int);
            let ghost after = msgs@.take(i + 1);
            proof {
                assert(after.drop_last() =~= before);
                assert(after.last() == msgs@[i as int]);
            }
            if self.apply_message(&msgs[i].0, msgs[i].1) {
                last = msgs[i].1;
            }
            i = i + 1;
        }
        proof {
            assert(msgs@.take(n as int) =~= msgs@);
        }
        self.retain_unexpired(now);
        proof {
            assert forall|k: Seq<char>|
                #[trigger] m0.dom().contains(k) && !expired_at(m0[k].2, now) && !writes_key(msgs@, k)
                    implies self@.dom().contains(k) && self@[k] == m0[k] by {
                lemma_unwritten_kept(m0, msgs@, k);
            }
        }
        last
    }
}

} // verus!
