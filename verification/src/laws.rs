//! Laws that tie several parts of the library together: the debug text of a key
//! press reads back as a keymap key, and what the display shows over time.
use vstd::prelude::*;

use crate::keymap::keymap_line;
use crate::messages::{LogMessage, MidiThreadMessage};
use crate::midi::MidiEvent;
use crate::number::{all_digits, decimal, digit_char, digit_value, digits_value, is_digit, parse_u8_spec, unsigned_part};
use crate::instance::{reaction_matches, MidiReaction};
use crate::messages::LogKind;
use crate::osd::{osd_after, osd_after_all, thread_running, unexpired, LineView};
use crate::paths::file_name_or_path;
use crate::text::contains_seq;
use crate::text::{find_char, lemma_find_char_at};
use crate::text_line::expired_at;

verus! {

proof fn lemma_decimal(n: nat)
    ensures
        decimal(n).len() > 0,
        all_digits(decimal(n)),
        digits_value(decimal(n)) == n,
        decimal(n)[0] != '+',
    decreases n,
{
    if n < 10 {
        let s = decimal(n);
        assert(s == seq![digit_char(n as int)]);
        assert(s.drop_last() =~= Seq::<char>::empty());
        assert(digits_value(Seq::<char>::empty()) == 0);
        assert(s.last() == digit_char(n as int));
        assert(digit_value(digit_char(n as int)) == n);
        assert(digits_value(s) == digits_value(s.drop_last()) * 10 + digit_value(s.last()));
    } else {
        lemma_decimal(n / 10);
        let p = decimal(n / 10);
        let s = decimal(n);
        let c = digit_char((n % 10) as int);
        assert(s == p + seq![c]);
        assert(s.drop_last() =~= p);
        assert(s.last() == c);
        assert(digit_value(c) == n % 10);
        assert(digits_value(s) == digits_value(p) * 10 + digit_value(c));
        assert((n / 10) * 10 + n % 10 == n);
        assert forall|i: int| 0 <= i < s.len() implies is_digit(#[trigger] s[i]) by {
            if i < p.len() {
                assert(s[i] == p[i]);
            }
        }
        assert(s[0] == p[0]);
    }
}

/// Reading the decimal text of a byte gives the byte back.
pub proof fn law_parse_decimal(x: u8)
    ensures
        parse_u8_spec(decimal(x as nat)) == Some(x),
{
    lemma_decimal(x as nat);
    assert(unsigned_part(decimal(x as nat)) == decimal(x as nat));
}

proof fn lemma_digits_avoid(s: Seq<char>, c: char)
    requires
        all_digits(s),
        !is_digit(c),
    ensures
        forall|j: int| 0 <= j < s.len() ==> s[j] != c,
{
    assert forall|j: int| 0 <= j < s.len() implies s[j] != c by {
        assert(is_digit(s[j]));
    }
}

/// Splitting `c:n` at its first `:` gives `c` and `n` when `c` is a run of digits.
proof fn lemma_key_split(c: Seq<char>, n: Seq<char>)
    requires
        all_digits(c),
    ensures
        find_char(c + seq![':'] + n, ':') == Some(c.len() as int),
        (c + seq![':'] + n).take(c.len() as int) == c,
        (c + seq![':'] + n).skip(c.len() as int + 1) == n,
{
    let key = c + seq![':'] + n;
    lemma_digits_avoid(c, ':');
    assert forall|j: int| 0 <= j < c.len() implies key[j] != ':' by {
        assert(key[j] == c[j]);
    }
    assert(key[c.len() as int] == ':');
    lemma_find_char_at(key, ':', c.len() as int);
    assert(key.take(c.len() as int) =~= c);
    assert(key.skip(c.len() as int + 1) =~= n);
}

/// Splitting `key name` at its first space gives `key` and `name` when `key` has no space.
proof fn lemma_line_split(key: Seq<char>, name: Seq<char>)
    requires
        forall|j: int| 0 <= j < key.len() ==> key[j] != ' ',
    ensures
        find_char(key + seq![' '] + name, ' ') == Some(key.len() as int),
        (key + seq![' '] + name).take(key.len() as int) == key,
        (key + seq![' '] + name).skip(key.len() as int + 1) == name,
{
    let line = key + seq![' '] + name;
    assert forall|j: int| 0 <= j < key.len() implies line[j] != ' ' by {
        assert(line[j] == key[j]);
    }
    assert(line[key.len() as int] == ' ');
    lemma_find_char_at(line, ' ', key.len() as int);
    assert(line.take(key.len() as int) =~= key);
    assert(line.skip(key.len() as int + 1) =~= name);
}

/// The text that the debug report of a key press gives (`channel:note`), followed by a
/// space and a name, is a keymap line for that same key and name.
pub proof fn law_debug_text_is_keymap_key(channel: u8, note: u8, name: Seq<char>)
    requires
        channel < 16,
        note < 128,
    ensures
        keymap_line(decimal(channel as nat) + ":"@ + decimal(note as nat) + " "@ + name) == Ok::<
            (MidiEvent, Seq<char>),
            crate::keymap::KeymapError,
        >((MidiEvent::NoteOn { channel, note, velocity: 0 }, name)),
{
    reveal_strlit(":");
    reveal_strlit(" ");
    let c = decimal(channel as nat);
    let n = decimal(note as nat);
    lemma_decimal(channel as nat);
    lemma_decimal(note as nat);
    let key = c + seq![':'] + n;
    assert(":"@ =~= seq![':']);
    assert(" "@ =~= seq![' ']);
    assert(c + ":"@ + n + " "@ + name =~= key + seq![' '] + name);
    lemma_digits_avoid(c, ' ');
    lemma_digits_avoid(n, ' ');
    assert forall|j: int| 0 <= j < key.len() implies key[j] != ' ' by {
        if j < c.len() {
            assert(key[j] == c[j]);
        } else if j > c.len() {
            assert(key[j] == n[j - c.len() - 1]);
        }
    }
    lemma_line_split(key, name);
    lemma_key_split(c, n);
    law_parse_decimal(channel);
    law_parse_decimal(note);
    assert((note as int) % 128 == note as int);
}

/// A log line from the MIDI thread is shown under its own text, and stays shown exactly
/// until it expires; a ping changes nothing that is shown.
pub proof fn law_log_line_shown(m: Map<Seq<char>, LineView>, l: LogMessage, now: i128, later: i128)
    ensures
        osd_after(m, MidiThreadMessage::Log(l), now)[l.text@] == (l.text@, l.kind, now),
        unexpired(osd_after(m, MidiThreadMessage::Log(l), now), later).dom().contains(l.text@) <==> !expired_at(
            now,
            later,
        ),
        osd_after(m, MidiThreadMessage::Ping, now) == m,
{
}

/// A thread that has just pinged counts as running, and one that has not pinged for
/// 200 ms or more does not.
pub proof fn law_thread_running(last_contact: i128, now: i128)
    ensures
        thread_running(last_contact, last_contact),
        now >= last_contact + 200_000_000 ==> !thread_running(last_contact, now),
{
}

/// A key press asks to stop all sounds exactly when it is note 35 on channel index 2:
/// a press on any other channel, or of any other note, never does.
pub proof fn law_reset_key(
    r: MidiReaction,
    channel: u8,
    note: u8,
    velocity: u8,
    km: Option<Seq<(MidiEvent, Seq<char>)>>,
)
    requires
        reaction_matches(r, MidiEvent::NoteOn { channel, note, velocity }, km),
    ensures
        r matches MidiReaction::Note { reset, .. } && (reset <==> (channel == 2 && note == 35)),
        channel != 2 ==> (r matches MidiReaction::Note { reset, .. } && !reset),
{
}

/// A text is contained wherever it stands: at the start, in the middle or at the end
/// of a name.
pub proof fn law_contains_anywhere(a: Seq<char>, n: Seq<char>, b: Seq<char>)
    ensures
        contains_seq(a + n + b, n),
{
    let h = a + n + b;
    assert(h.subrange(a.len() as int, (a.len() + n.len()) as int) =~= n);
}

/// A name contains a text exactly when the name is that text with something (maybe
/// nothing) before and after it.
pub proof fn law_contains_split(h: Seq<char>, n: Seq<char>)
    ensures
        contains_seq(h, n) <==> exists|a: Seq<char>, b: Seq<char>| h == a + n + b,
{
    if contains_seq(h, n) {
        let i = choose|i: int| 0 <= i <= h.len() - n.len() && #[trigger] h.subrange(i, i + n.len()) == n;
        let a = h.take(i);
        let b = h.skip(i + n.len());
        assert(h =~= a + n + b);
    }
    if exists|a: Seq<char>, b: Seq<char>| h == a + n + b {
        let (a, b) = choose|a: Seq<char>, b: Seq<char>| h == a + n + b;
        law_contains_anywhere(a, n, b);
    }
}

/// A rack switch read at `now` is shown under the rack's file name, as
/// `Rack '<name>' is on` (or `off`), as information made at `now`; it stays shown
/// exactly until it expires, and a frame that reads it at `now` shows it.
pub proof fn law_rack_line_shown(
    m: Map<Seq<char>, LineView>,
    path: String,
    enabled: bool,
    in_keymap: bool,
    now: i128,
    later: i128,
)
    ensures
        ({
            let msg = MidiThreadMessage::UpdateRack { path, enabled, in_keymap };
            let key = file_name_or_path(path@);
            &&& osd_after(m, msg, now).dom().contains(key)
            &&& osd_after(m, msg, now)[key] == ("Rack '"@ + key + "' is "@ + if enabled {
                "on"@
            } else {
                "off"@
            }, LogKind::Info, now)
            &&& (unexpired(osd_after(m, msg, now), later).dom().contains(key) <==> !expired_at(now, later))
            &&& unexpired(osd_after_all(m, seq![(msg, now)]), now).dom().contains(key)
        }),
{
    let msg = MidiThreadMessage::UpdateRack { path, enabled, in_keymap };
    let frame = seq![(msg, now)];
    assert(frame.drop_last() =~= Seq::<(MidiThreadMessage, i128)>::empty());
    assert(osd_after_all(m, frame.drop_last()) == m);
    assert(frame.last() == (msg, now));
    assert(osd_after_all(m, frame) == osd_after(m, msg, now));
}

} // verus!
