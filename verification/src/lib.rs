pub mod instance;
pub mod keymap;
pub mod laws;
pub mod messages;
pub mod midi;
pub mod number;
pub mod osd;
pub mod paths;
pub mod platform;
pub mod rack;
pub mod rack_laws;
pub mod sounds;
pub mod text;
pub mod text_line;
pub mod tray;
