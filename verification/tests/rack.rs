use equilibrium::rack::{CommandData, CommandStatement, RackFile, Statement};

fn cmd(enabled: bool, data: CommandData) -> Statement {
    Statement::Command(CommandStatement { enabled, data })
}

#[test]
fn rack_custom_dir_and_root_path() {
    assert_eq!(RackFile::get_custom_dir(), "D:/Misc/EqualizerAPO/");
    assert_eq!(RackFile::get_root_path(), "C:/Program Files/EqualizerAPO/config/config.txt");
}

#[test]
fn rack_parse_reads_each_kind_of_line() {
    let text = "Device: Speakers\n# Include: bass.txt\nInclude: treble.txt\nPreamp: -3 dB\n# just a note\n\n";
    let rack = RackFile::parse(text);
    let expected = vec![
        cmd(true, CommandData::Device("Speakers".to_string())),
        cmd(false, CommandData::Include("bass.txt".to_string())),
        cmd(true, CommandData::Include("treble.txt".to_string())),
        cmd(true, CommandData::Unknown { name: "Preamp".to_string(), value: "-3 dB".to_string() }),
        Statement::Comment("just a note".to_string()),
        Statement::Comment("".to_string()),
    ];
    assert_eq!(rack.statements(), &expected);
}

#[test]
fn rack_parse_trims_and_splits_at_first_colon() {
    let rack = RackFile::parse("  Include :  C:/eq/a.txt  \r\n");
    assert_eq!(rack.statements(), &vec![cmd(true, CommandData::Include("C:/eq/a.txt".to_string()))]);
}

#[test]
fn rack_parse_empty_name_or_value_is_comment() {
    let rack = RackFile::parse(":value\nname:\n#  : \nno colon here");
    assert_eq!(
        rack.statements(),
        &vec![
            Statement::Comment(":value".to_string()),
            Statement::Comment("name:".to_string()),
            Statement::Comment(":".to_string()),
            Statement::Comment("no colon here".to_string()),
        ]
    );
}

#[test]
fn rack_parse_strips_only_one_hash() {
    let rack = RackFile::parse("##x: y");
    assert_eq!(rack.statements(), &vec![cmd(false, CommandData::Unknown { name: "#x".to_string(), value: "y".to_string() })]);
}

#[test]
fn rack_parse_empty_text() {
    assert!(RackFile::parse("").statements().is_empty());
}

#[test]
fn rack_render_writes_each_kind_of_line() {
    let rack = RackFile::parse("Device:Speakers\n#Include: bass.txt\nInclude:treble.txt\n Preamp :  -3 dB\n#just a note\n");
    assert_eq!(rack.render(), "Device: Speakers\n# Include: bass.txt\nInclude: treble.txt\nPreamp: -3 dB\n# just a note");
}

#[test]
fn rack_save_then_load_gives_same_statements() {
    let original = RackFile::parse("Device: A\n# Include: b.txt\nX: y: z\n# plain\n\n");
    let again = RackFile::parse(&original.render());
    assert_eq!(again.statements(), original.statements());
}

#[test]
fn rack_hash_named_command_does_not_round_trip() {
    let original = RackFile::parse("  #x: y");
    assert_eq!(original.statements(), &vec![cmd(true, CommandData::Unknown { name: "#x".to_string(), value: "y".to_string() })]);
    let again = RackFile::parse(&original.render());
    assert_eq!(again.statements(), &vec![cmd(false, CommandData::Unknown { name: "x".to_string(), value: "y".to_string() })]);
}

#[test]
fn rack_toggle_include_switches_first_match() {
    let mut rack = RackFile::parse("Include: a.txt\n# Include: b.txt\n# Include: b.txt");
    assert!(rack.toggle_include("b.txt"));
    assert_eq!(rack.render(), "Include: a.txt\nInclude: b.txt\n# Include: b.txt");
    assert!(!rack.toggle_include("a.txt"));
    assert_eq!(rack.render(), "# Include: a.txt\nInclude: b.txt\n# Include: b.txt");
}

#[test]
fn rack_toggle_include_twice_restores() {
    let mut rack = RackFile::parse("Device: A\n# Include: D:/x/b.txt\nnote");
    let before = rack.render();
    let first = rack.toggle_include("D:/x/b.txt");
    let second = rack.toggle_include("D:/x/b.txt");
    assert!(first);
    assert!(!second);
    assert_eq!(rack.render(), before);
}

#[test]
fn rack_toggle_include_compares_paths_not_text() {
    let mut rack = RackFile::parse("# Include: D:/x//b.txt");
    assert!(rack.toggle_include("D:/x/b.txt"));
    assert_eq!(rack.render(), "Include: D:/x//b.txt");
}

#[test]
fn rack_toggle_missing_include_changes_nothing() {
    let mut rack = RackFile::parse("Device: b.txt\n# b.txt");
    assert!(!rack.toggle_include("b.txt"));
    assert_eq!(rack.render(), "Device: b.txt\n# b.txt");
}

#[test]
fn rack_toggle_then_save_load_gives_same_statements() {
    let mut rack = RackFile::parse("Device: A\n# Include: b.txt\nInclude: c.txt\nX: y\n# plain\n");
    assert!(rack.toggle_include("b.txt"));
    assert!(!rack.toggle_include("c.txt"));
    assert!(!rack.toggle_include("missing.txt"));
    let text = rack.render();
    assert_eq!(text, "Device: A\nInclude: b.txt\n# Include: c.txt\nX: y\n# plain");
    let again = RackFile::parse(&text);
    assert_eq!(again.statements(), rack.statements());
}
