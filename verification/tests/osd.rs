use equilibrium::messages::{LogKind, LogMessage, MidiThreadMessage};
use equilibrium::osd::{midi_thread_running, OsdLines, ThreadToggle};
use equilibrium::text_line::{elapsed_nanos, epoch_nanos, now_nanos, TextLine};

const SEC: i128 = 1_000_000_000;

#[test]
fn osd_insert_replaces_same_key() {
    let mut osd = OsdLines::new();
    assert!(osd.is_empty());
    osd.insert("a".to_string(), TextLine::new_at("first", LogKind::Info, 1));
    osd.insert("b".to_string(), TextLine::new_at("other", LogKind::Error, 2));
    osd.insert("a".to_string(), TextLine::new_at("second", LogKind::Warning, 3));
    assert_eq!(osd.len(), 2);
    let a = osd.get("a").unwrap();
    assert_eq!(a.text, "second");
    assert_eq!(a.kind, LogKind::Warning);
    assert_eq!(a.timestamp(), 3);
    assert!(osd.get("c").is_none());
}

#[test]
fn osd_log_message_shown_under_its_text() {
    let mut osd = OsdLines::new();
    let msg = LogMessage::message("Found port 'x'".to_string(), LogKind::Info);
    assert!(!osd.apply_message(&msg, 10));
    let l = osd.get("Found port 'x'").unwrap();
    assert_eq!(l.text, "Found port 'x'");
    assert_eq!(l.timestamp(), 10);
}

#[test]
fn osd_rack_update_shown_under_file_name() {
    let mut osd = OsdLines::new();
    let on = MidiThreadMessage::UpdateRack { path: "D:/Misc/EqualizerAPO/bass.txt".to_string(), enabled: true, in_keymap: true };
    osd.apply_message(&on, 5);
    assert_eq!(osd.get("bass.txt").unwrap().text, "Rack 'bass.txt' is on");
    let off = MidiThreadMessage::UpdateRack { path: "D:/Misc/EqualizerAPO/bass.txt".to_string(), enabled: false, in_keymap: true };
    osd.apply_message(&off, 6);
    assert_eq!(osd.len(), 1);
    assert_eq!(osd.get("bass.txt").unwrap().text, "Rack 'bass.txt' is off");
}

#[test]
fn osd_ping_and_sound_show_nothing() {
    let mut osd = OsdLines::new();
    assert!(osd.apply_message(&MidiThreadMessage::Ping, 1));
    assert!(!osd.apply_message(&MidiThreadMessage::UpdateSound { name: "x".to_string(), played: true }, 1));
    assert!(osd.is_empty());
}

#[test]
fn osd_retain_drops_expired_lines() {
    let mut osd = OsdLines::new();
    osd.insert("old".to_string(), TextLine::new_at("old", LogKind::Info, 0));
    osd.insert("new".to_string(), TextLine::new_at("new", LogKind::Info, 3 * SEC));
    osd.retain_unexpired(4 * SEC);
    assert_eq!(osd.len(), 2);
    osd.retain_unexpired(4 * SEC + 1);
    assert_eq!(osd.len(), 1);
    assert!(osd.get("old").is_none());
    assert_eq!(osd.entry_at(0).0, "new");
    osd.retain_unexpired(8 * SEC);
    assert!(osd.is_empty());
}

#[test]
fn osd_toggle_thread() {
    let mut osd = OsdLines::new();
    assert_eq!(osd.toggle_thread(false, false, 1), ThreadToggle::Start);
    assert_eq!(osd.get("midi_thread").unwrap().text, "Starting the thread");
    assert_eq!(osd.toggle_thread(true, true, 2), ThreadToggle::Stop);
    assert_eq!(osd.get("midi_thread").unwrap().text, "Closing the thread");
    let mut quiet = OsdLines::new();
    assert_eq!(quiet.toggle_thread(true, false, 3), ThreadToggle::Stop);
    assert!(quiet.is_empty());
}

#[test]
fn osd_thread_running_window() {
    assert!(midi_thread_running(100, 100));
    assert!(midi_thread_running(0, 199_999_999));
    assert!(!midi_thread_running(0, 200_000_000));
    assert!(midi_thread_running(500, 100));
}

#[test]
fn text_line_expiry() {
    let l = TextLine::new_at("x", LogKind::Info, 10);
    assert_eq!(l.get_elapsed_at(5), 0);
    assert_eq!(l.get_elapsed_at(15), 5);
    assert!(!l.is_expired_at(10));
    assert!(!l.is_expired_at(10 + 4 * SEC));
    assert!(l.is_expired_at(11 + 4 * SEC));
    assert_eq!(TextLine::max_duration(), 4_000_000_000u128);
}

#[test]
fn text_line_now_is_fresh() {
    let l = TextLine::new("hello", LogKind::Warning);
    assert_eq!(l.text, "hello");
    assert_eq!(l.kind, LogKind::Warning);
    assert!(!l.is_expired());
    assert!(l.get_elapsed() < 4_000_000_000u128);
}

#[test]
fn text_line_before_epoch_expires() {
    let l = TextLine::new_at("x", LogKind::Info, -10 * SEC);
    assert_eq!(l.get_elapsed_at(-7 * SEC), 3_000_000_000u128);
    assert!(!l.is_expired_at(-6 * SEC));
    assert!(l.is_expired_at(-6 * SEC + 1));
    assert!(l.is_expired_at(SEC));
    assert_eq!(l.get_elapsed_at(SEC), 11_000_000_000u128);
}

#[test]
fn epoch_nanos_signs_and_bounds() {
    assert_eq!(epoch_nanos(true, 5), 5);
    assert_eq!(epoch_nanos(false, 5), -5);
    assert_eq!(epoch_nanos(true, 0), 0);
    assert_eq!(epoch_nanos(false, 0), 0);
    assert_eq!(epoch_nanos(true, u128::MAX), i128::MAX);
    assert_eq!(epoch_nanos(false, u128::MAX), i128::MIN);
    assert_eq!(epoch_nanos(false, i128::MAX as u128), -i128::MAX);
}

#[test]
fn elapsed_nanos_across_the_epoch() {
    assert_eq!(elapsed_nanos(-3, 4), 7);
    assert_eq!(elapsed_nanos(4, -3), 0);
    assert_eq!(elapsed_nanos(-9, -3), 6);
    assert_eq!(elapsed_nanos(i128::MIN, i128::MAX), u128::MAX);
    assert_eq!(elapsed_nanos(i128::MAX, i128::MAX), 0);
}

#[test]
fn now_nanos_is_after_a_fixed_date() {
    // 2020-01-01 in nanoseconds since the UNIX epoch.
    assert!(now_nanos() > 1_577_836_800 * SEC);
}

#[test]
fn midi_thread_running_before_epoch() {
    assert!(midi_thread_running(-SEC, -SEC + 199_999_999));
    assert!(!midi_thread_running(-SEC, -SEC + 200_000_000));
}
