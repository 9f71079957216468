use equilibrium::keymap::{Keymap, KeymapError};
use equilibrium::midi::MidiEvent;

fn note_on(channel: u8, note: u8) -> MidiEvent {
    MidiEvent::NoteOn { channel, note, velocity: 0 }
}

#[test]
fn keymap_parse_line_reads_key_and_name() {
    let (m, name) = Keymap::parse_line("2:36 bass boost").unwrap();
    assert_eq!(m, note_on(2, 36));
    assert_eq!(name, "bass boost");
}

#[test]
fn keymap_parse_line_accepts_plus_sign() {
    let (m, _) = Keymap::parse_line("+9:+0 x").unwrap();
    assert_eq!(m, note_on(9, 0));
}

#[test]
fn keymap_parse_line_keeps_seven_note_bits() {
    let (m, _) = Keymap::parse_line("0:200 x").unwrap();
    assert_eq!(m, note_on(0, 72));
}

#[test]
fn keymap_parse_line_errors() {
    assert_eq!(Keymap::parse_line("1:2").unwrap_err(), KeymapError::MissingSpace);
    assert_eq!(Keymap::parse_line("12 x").unwrap_err(), KeymapError::MissingColon);
    assert_eq!(Keymap::parse_line("a:2 x").unwrap_err(), KeymapError::ChannelNotNumber);
    assert_eq!(Keymap::parse_line(":2 x").unwrap_err(), KeymapError::ChannelNotNumber);
    assert_eq!(Keymap::parse_line("256:2 x").unwrap_err(), KeymapError::ChannelNotNumber);
    assert_eq!(Keymap::parse_line("1:-2 x").unwrap_err(), KeymapError::NoteNotNumber);
    assert_eq!(Keymap::parse_line("1: x").unwrap_err(), KeymapError::NoteNotNumber);
    assert_eq!(Keymap::parse_line("16:2 x").unwrap_err(), KeymapError::ChannelOutOfRange);
    assert_eq!(Keymap::parse_line("x:y z").unwrap_err(), KeymapError::ChannelNotNumber);
}

#[test]
fn keymap_error_messages() {
    assert_eq!(KeymapError::MissingSpace.message(), "Expected ' '");
    assert_eq!(KeymapError::MissingColon.message(), "Expected ':'");
    assert_eq!(KeymapError::ChannelNotNumber.message(), "Channel should be a number");
    assert_eq!(KeymapError::NoteNotNumber.message(), "Note should be a number");
    assert_eq!(KeymapError::ChannelOutOfRange.message(), "Failed to parse MIDI channel");
}

#[test]
fn keymap_parse_builds_paths_and_skips_blank_lines() {
    let k = Keymap::parse("  2:36 bass  \n\n   \n0:1 vocal.wav\n").unwrap();
    assert_eq!(k.entries.len(), 2);
    assert_eq!(k.entries[0].message, note_on(2, 36));
    let expected0 = std::path::Path::new("D:/Misc/EqualizerAPO/").join("bass").with_extension("txt");
    assert_eq!(k.entries[0].path, expected0.to_string_lossy());
    assert_eq!(k.entries[0].path, "D:/Misc/EqualizerAPO/bass.txt");
    assert_eq!(k.entries[1].path, "D:/Misc/EqualizerAPO/vocal.txt");
}

#[test]
fn keymap_parse_fails_on_first_bad_line() {
    assert_eq!(Keymap::parse("1:2 a\n3 b\n99:1 c").unwrap_err(), KeymapError::MissingColon);
}

#[test]
fn keymap_entry_for_finds_first_match() {
    let k = Keymap::parse("1:2 a\n1:3 b\n1:2 c").unwrap();
    assert_eq!(k.entry_for(1, 2), Some(0));
    assert_eq!(k.entry_for(1, 3), Some(1));
    assert_eq!(k.entry_for(2, 2), None);
}
