use equilibrium::instance::{find_containing, Instance, InstanceError, MidiReaction};
use equilibrium::keymap::Keymap;
use equilibrium::midi::MidiEvent;

fn loaded() -> Instance {
    let mut inst = Instance::new();
    let k = Keymap::parse("2:36 bass\n0:60 vocal").unwrap();
    assert!(inst.load_keymap(Ok(k)).is_none());
    inst
}

#[test]
fn instance_without_keymap_fails_on_note() {
    let inst = Instance::new();
    assert_eq!(inst.on_note(0, 60, 100), Err(InstanceError::MissingKeymap));
    assert_eq!(InstanceError::MissingKeymap.message(), "Missing keymap");
}

#[test]
fn instance_load_keymap_error_text() {
    let mut inst = Instance::new();
    let r = inst.load_keymap(Err("Expected ' '".to_string()));
    assert_eq!(r.unwrap(), "Failed to load keymap: Expected ' '");
    assert_eq!(inst.on_note(0, 60, 1), Err(InstanceError::MissingKeymap));
}

#[test]
fn instance_on_note_finds_rack() {
    let inst = loaded();
    assert_eq!(inst.on_note(0, 60, 100), Ok(Some("D:/Misc/EqualizerAPO/vocal.txt".to_string())));
    assert_eq!(inst.on_note(0, 61, 100), Ok(None));
}

#[test]
fn instance_on_message_reset_key() {
    let inst = loaded();
    let r = inst.on_message(MidiEvent::NoteOn { channel: 2, note: 35, velocity: 90 });
    assert_eq!(r, MidiReaction::Note { reset: true, outcome: Ok(None) });
    let r = inst.on_message(MidiEvent::NoteOn { channel: 2, note: 36, velocity: 90 });
    assert_eq!(r, MidiReaction::Note { reset: false, outcome: Ok(Some("D:/Misc/EqualizerAPO/bass.txt".to_string())) });
}

#[test]
fn instance_on_message_other_kinds() {
    let inst = loaded();
    assert_eq!(inst.on_message(MidiEvent::NoteOff { channel: 2, note: 36, velocity: 0 }), MidiReaction::Ignore);
    assert_eq!(inst.on_message(MidiEvent::PitchBend { channel: 1, bend: 8192 }), MidiReaction::PitchBend { channel: 1, bend: 8192 });
    assert_eq!(
        inst.on_message(MidiEvent::ControlChange { channel: 0, control: 7, value: 100 }),
        MidiReaction::Control { channel: 0, control: 7, value: 100 }
    );
    assert_eq!(inst.on_message(MidiEvent::Other), MidiReaction::Unrecognized);
}

#[test]
fn instance_on_bytes_decodes() {
    let inst = loaded();
    assert_eq!(
        inst.on_bytes(&[0x92, 36, 100]),
        Ok(MidiReaction::Note { reset: false, outcome: Ok(Some("D:/Misc/EqualizerAPO/bass.txt".to_string())) })
    );
    assert_eq!(inst.on_bytes(&[0x80, 36, 0]), Ok(MidiReaction::Ignore));
    assert_eq!(inst.on_bytes(&[0xE1, 0x00, 0x40]), Ok(MidiReaction::PitchBend { channel: 1, bend: 8192 }));
    assert_eq!(inst.on_bytes(&[0xB3, 7, 127]), Ok(MidiReaction::Control { channel: 3, control: 7, value: 127 }));
    assert_eq!(inst.on_bytes(&[0xF8]), Ok(MidiReaction::Unrecognized));
}

#[test]
fn instance_on_bytes_reports_bad_bytes() {
    let inst = loaded();
    assert_eq!(inst.on_bytes(&[]), Err("Failed to read MIDI message '': NoBytes".to_string()));
    assert_eq!(inst.on_bytes(&[5, 200]), Err("Failed to read MIDI message '5, 200': UnexpectedDataByte".to_string()));
    assert_eq!(inst.on_bytes(&[0x90, 1]), Err("Failed to read MIDI message '144, 1': NotEnoughBytes".to_string()));
}

#[test]
fn instance_debug_text() {
    let inst = Instance::new();
    assert_eq!(inst.on_message_debug(MidiEvent::NoteOn { channel: 2, note: 35, velocity: 1 }), Some("2:35".to_string()));
    assert_eq!(inst.on_message_debug(MidiEvent::NoteOn { channel: 15, note: 127, velocity: 1 }), Some("15:127".to_string()));
    assert_eq!(inst.on_message_debug(MidiEvent::Other), None);
}

#[test]
fn instance_debug_text_reads_back_as_keymap_key() {
    let inst = Instance::new();
    let key = inst.on_message_debug(MidiEvent::NoteOn { channel: 7, note: 100, velocity: 1 }).unwrap();
    let (m, name) = Keymap::parse_line(&(key + " drums")).unwrap();
    assert_eq!(m, MidiEvent::NoteOn { channel: 7, note: 100, velocity: 0 });
    assert_eq!(name, "drums");
}

#[test]
fn instance_port_and_device_choice() {
    let ports = vec!["Midi Through".to_string(), "MPK mini 3".to_string(), "MPK other".to_string()];
    assert_eq!(Instance::port_index(&ports), Some(1));
    assert_eq!(Instance::port_index(&vec!["Keystation".to_string()]), None);
    let devices = vec!["Speakers (Realtek)".to_string(), "CABLE Input (VB-Audio)".to_string()];
    assert_eq!(Instance::audio_device_index(&devices, "  CABLE Input\n"), Some(1));
    assert_eq!(Instance::audio_device_index(&devices, "Headphones"), None);
    assert_eq!(find_containing(&devices, ""), Some(0));
}

#[test]
fn midi_event_from_bytes_reads_fields() {
    assert_eq!(
        MidiEvent::from_bytes(&[0x95, 60, 100]),
        Ok(MidiEvent::NoteOn { channel: 5, note: 60, velocity: 100 })
    );
    assert_eq!(
        MidiEvent::from_bytes(&[0x93, 60, 0]),
        Ok(MidiEvent::NoteOff { channel: 3, note: 60, velocity: 0 })
    );
    assert_eq!(
        MidiEvent::from_bytes(&[0x8F, 127, 64]),
        Ok(MidiEvent::NoteOff { channel: 15, note: 127, velocity: 64 })
    );
    assert_eq!(MidiEvent::from_bytes(&[0xE0, 0x7F, 0x7F]), Ok(MidiEvent::PitchBend { channel: 0, bend: 16383 }));
    assert_eq!(
        MidiEvent::from_bytes(&[0xB2, 7, 1]),
        Ok(MidiEvent::ControlChange { channel: 2, control: 7, value: 1 })
    );
    assert_eq!(MidiEvent::from_bytes(&[0xC0, 5]), Ok(MidiEvent::Other));
    assert_eq!(MidiEvent::from_bytes(&[]), Err("NoBytes".to_string()));
    assert_eq!(MidiEvent::from_bytes(&[0x40, 1, 2]), Err("UnexpectedDataByte".to_string()));
    assert_eq!(MidiEvent::from_bytes(&[0x90, 200, 1]), Err("UnexpectedStatusByte".to_string()));
}
