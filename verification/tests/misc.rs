use equilibrium::messages::{AppThreadMessage, LogKind, LogMessage, MidiThreadMessage, ThreadResponse};
use equilibrium::number::{decimal_u8, parse_u8};
use equilibrium::paths::FileNameOrPathTrait;
use equilibrium::platform::{frameless_style, passthrough_ex_style};
use equilibrium::tray::{icon_path, tray_icon_name, tray_tooltip, TrayButton, TrayUpdate};

#[test]
fn log_kind_words() {
    assert_eq!(LogKind::Info.to_string(), "Info");
    assert_eq!(LogKind::Warning.to_string(), "Warning");
    assert_eq!(LogKind::Error.to_string(), "Error");
}

#[test]
fn log_message_builds_log() {
    match LogMessage::message("hi".to_string(), LogKind::Error) {
        MidiThreadMessage::Log(l) => {
            assert_eq!(l.text, "hi");
            assert_eq!(l.kind, LogKind::Error);
        }
        other => panic!("unexpected {:?}", other),
    }
}

#[test]
fn log_message_send_reaches_channel() {
    let (tx, rx) = std::sync::mpsc::channel();
    LogMessage::send(&tx, "sent".to_string(), LogKind::Info);
    match rx.try_recv().unwrap() {
        MidiThreadMessage::Log(l) => assert_eq!(l.text, "sent"),
        other => panic!("unexpected {:?}", other),
    }
}

#[test]
fn app_thread_message_responses() {
    assert!(matches!(AppThreadMessage::CloseThread.response(), ThreadResponse::Close));
    match AppThreadMessage::AssetReload.response() {
        ThreadResponse::Report(l) => {
            assert_eq!(l.text, "MIDI thread should be restarted for some changes");
            assert_eq!(l.kind, LogKind::Info);
        }
        ThreadResponse::Close => panic!("should keep running"),
    }
}

#[test]
fn parse_u8_like_std() {
    for s in ["0", "7", "255", "256", "+12", "-1", "", "+", "00012", "1a", " 1", "99999999999"] {
        assert_eq!(parse_u8(s), s.parse::<u8>().ok(), "input {:?}", s);
    }
}

#[test]
fn decimal_u8_like_std() {
    for n in 0..=255u8 {
        assert_eq!(decimal_u8(n), n.to_string());
        assert_eq!(parse_u8(&decimal_u8(n)), Some(n));
    }
}

#[test]
fn file_name_safe_of_paths() {
    assert_eq!("D:/Misc/EqualizerAPO/bass.txt".to_string().file_name_safe(), "bass.txt");
    assert_eq!("/".to_string().file_name_safe(), "/");
    assert_eq!("a/..".to_string().file_name_safe(), "a/..");
}

#[test]
fn tray_click_and_status() {
    assert_eq!(TrayUpdate::from_click(TrayButton::Left, true), TrayUpdate::MidiThreadToggle);
    assert_eq!(TrayUpdate::from_click(TrayButton::Right, true), TrayUpdate::AssetReload);
    assert_eq!(TrayUpdate::from_click(TrayButton::Left, false), TrayUpdate::NoAction);
    assert_eq!(TrayUpdate::from_click(TrayButton::Middle, true), TrayUpdate::NoAction);
    assert_eq!(tray_tooltip(true), "Running");
    assert_eq!(tray_tooltip(false), "Not running");
    assert_eq!(icon_path(&tray_icon_name(true)), "./assets/icon_open.png");
    assert_eq!(icon_path(&tray_icon_name(false)), "./assets/icon_closed.png");
}

#[test]
fn window_styles() {
    let thick = 0x0004_0000;
    let border = 0x0080_0000;
    let layered = 0x0008_0000;
    let transparent = 0x20;
    assert_eq!(frameless_style(0x00CF_0000, thick, border), 0x004B_0000);
    assert_eq!(passthrough_ex_style(0x100, layered, transparent), 0x0008_0120);
    assert_eq!(passthrough_ex_style(0x20, layered, transparent), 0x0008_0020);
}
