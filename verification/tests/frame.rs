use equilibrium::messages::{thread_step, AppThreadMessage, LogKind, LogMessage, LoopStep, MidiThreadMessage};
use equilibrium::osd::OsdLines;
use equilibrium::sounds::{plays_on, reset_reports, sound_message, SoundBook};
use equilibrium::text_line::TextLine;

const SEC: i128 = 1_000_000_000;

fn log(text: &str) -> MidiThreadMessage {
    MidiThreadMessage::Log(LogMessage { text: text.to_string(), kind: LogKind::Info })
}

#[test]
fn read_frame_applies_messages_then_drops_expired() {
    let mut osd = OsdLines::new();
    osd.insert("old".to_string(), TextLine::new_at("old", LogKind::Info, 0));
    osd.insert("kept".to_string(), TextLine::new_at("kept", LogKind::Info, 3 * SEC));
    osd.insert("replaced".to_string(), TextLine::new_at("replaced", LogKind::Info, 3 * SEC));
    let msgs = vec![(log("replaced"), 5 * SEC), (MidiThreadMessage::Ping, 5 * SEC + 7), (log("new"), 6 * SEC)];
    let last = osd.read_frame(&msgs, 2, 5 * SEC);
    assert_eq!(last, 5 * SEC + 7);
    assert_eq!(osd.len(), 3);
    assert!(osd.get("old").is_none());
    assert_eq!(osd.get("kept").unwrap().timestamp(), 3 * SEC);
    assert_eq!(osd.get("replaced").unwrap().timestamp(), 5 * SEC);
    assert_eq!(osd.get("new").unwrap().timestamp(), 6 * SEC);
}

#[test]
fn read_frame_without_ping_keeps_last_contact() {
    let mut osd = OsdLines::new();
    let last = osd.read_frame(&vec![(log("a"), 1)], 42, 1);
    assert_eq!(last, 42);
    assert_eq!(osd.len(), 1);
    let last = osd.read_frame(&Vec::new(), 42, 1 + 4 * SEC + 1);
    assert_eq!(last, 42);
    assert!(osd.is_empty());
}

#[test]
fn thread_step_closes_reports_and_pings() {
    assert!(matches!(thread_step(Some(AppThreadMessage::CloseThread)), LoopStep::Close));
    match thread_step(None) {
        LoopStep::Continue { send, sleep_millis } => {
            assert_eq!(sleep_millis, 100);
            assert_eq!(send.len(), 1);
            assert!(matches!(send[0], MidiThreadMessage::Ping));
        }
        LoopStep::Close => panic!("no request closes nothing"),
    }
    match thread_step(Some(AppThreadMessage::AssetReload)) {
        LoopStep::Continue { send, sleep_millis } => {
            assert_eq!(sleep_millis, 100);
            assert_eq!(send.len(), 2);
            match &send[0] {
                MidiThreadMessage::Log(l) => {
                    assert_eq!(l.text, "MIDI thread should be restarted for some changes");
                    assert_eq!(l.kind, LogKind::Info);
                }
                _ => panic!("the report comes first"),
            }
            assert!(matches!(send[1], MidiThreadMessage::Ping));
        }
        LoopStep::Close => panic!("a reload does not close"),
    }
}

#[test]
fn sound_velocity_threshold() {
    assert!(!plays_on(0));
    assert!(!plays_on(60));
    assert!(plays_on(61));
    assert!(plays_on(127));
}

#[test]
fn sound_book_counts_and_stops() {
    let mut book = SoundBook::new();
    book.started("a.wav");
    book.started("a.wav");
    book.started("b.wav");
    assert_eq!(book.stopped("a.wav"), 2);
    assert_eq!(book.stopped("a.wav"), 0);
    assert_eq!(book.stopped("c.wav"), 0);
    book.started("c.wav");
    assert_eq!(book.reset(), 2);
    assert_eq!(book.reset(), 0);
    assert_eq!(book.stopped("b.wav"), 0);
}

#[test]
fn sound_messages() {
    match sound_message("a.wav", true) {
        MidiThreadMessage::UpdateSound { name, played } => {
            assert_eq!(name, "a.wav");
            assert!(played);
        }
        _ => panic!("a sound update"),
    }
    let reports = reset_reports(3);
    assert_eq!(reports.len(), 3);
    for r in &reports {
        match r {
            MidiThreadMessage::Log(l) => {
                assert_eq!(l.text, "Sounds were reset");
                assert_eq!(l.kind, LogKind::Info);
            }
            _ => panic!("a log line"),
        }
    }
    assert!(reset_reports(0).is_empty());
}

#[test]
fn text_line_remaining_time() {
    let l = TextLine::new_at("x", LogKind::Info, 10);
    assert_eq!(l.remaining_at(10), 4_000_000_000);
    assert_eq!(l.remaining_at(10 + SEC), 3_000_000_000);
    assert_eq!(l.remaining_at(10 + 4 * SEC), 0);
    assert_eq!(l.remaining_at(11 + 4 * SEC), 4_000_000_000);
    assert_eq!(l.remaining_at(5), 4_000_000_000);
}
