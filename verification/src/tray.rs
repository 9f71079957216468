//! What the tray icon shows and what a click on it asks for.
use vstd::prelude::*;

verus! {

/// What a click on the tray icon asks for.
#[derive(Clone, Copy, Debug, PartialEq, Eq, Structural)]
pub enum TrayUpdate {
    MidiThreadToggle,
    AssetReload,
    NoAction,
}

/// The mouse button of a click on the tray icon.
#[derive(Clone, Copy, Debug, PartialEq, Eq, Structural)]
pub enum TrayButton {
    Left,
    Right,
    Middle,
}

impl TrayUpdate {
    /// What a click asks for: pressing the left button toggles the MIDI thread, pressing
    /// the right one reloads assets, and anything else (a release, the middle button)
    /// asks for nothing.
    pub fn from_click(button: TrayButton, pressed: bool) -> (r: TrayUpdate)
        ensures
            r == (if pressed && button == TrayButton::Left {
                TrayUpdate::MidiThreadToggle
            } else if pressed && button == TrayButton::Right {
                TrayUpdate::AssetReload
            } else {
                TrayUpdate::NoAction
            }),
    {
        match button {
            TrayButton::Left if pressed => TrayUpdate::MidiThreadToggle,
            TrayButton::Right if pressed => TrayUpdate::AssetReload,
            _ => TrayUpdate::NoAction,
        }
    }
}

/// The tooltip of the tray icon.
pub fn tray_tooltip(running: bool) -> (r: String)
    ensures
        r@ == if running { "Running"@ } else { "Not running"@ },
{
    if running {
        String::from_str("Running")
    } else {
        String::from_str("Not running")
    }
}

/// The name of the tray icon's picture.
pub fn tray_icon_name(running: bool) -> (r: String)
    ensures
        r@ == if running { "open"@ } else { "closed"@ },
{
    if running {
        String::from_str("open")
    } else {
        String::from_str("closed")
    }
}

/// Where the picture of an icon name is stored.
pub fn icon_path(icon: &str) -> (r: String)
    ensures
        r@ == "./assets/icon_"@ + icon@ + ".png"@,
{
    let mut p = String::from_str("./assets/icon_");
    p.append(icon);
    p.append(".png");
    p
}

} // verus!
