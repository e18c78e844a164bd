use copper::commands::{parse_command, Command};
use copper::config::{
    difficulty_of, eula_line_agreed, gamemode_of, is_eula_line, parse_bool, parse_i32, parse_i64,
    parse_u16, parse_u32, parse_u8, world_preset_of, Difficulty, Gamemode, WorlPreset,
};
use copper::packet::PacketId;
use copper::properties::{read_properties, PropertiesParseErrorKind};

#[test]
fn test_read_properties_basic() {
    let content = b"# A comment line\n! Another comment\n\nserver-port = 25565\nmotd=A Minecraft Server\n";
    let props = read_properties(content).expect("parsing must succeed");
    assert_eq!(props.get_property("server-port").unwrap(), "25565");
    assert_eq!(props.get_property("motd").unwrap(), "A Minecraft Server");
    assert!(props.get_property("level-seed").is_err());
}

#[test]
fn test_read_properties_trims_and_overrides() {
    let content = b"  key  =  value with spaces  \nkey=second\n";
    let props = read_properties(content).expect("parsing must succeed");
    // The later assignment replaces the earlier one.
    assert_eq!(props.get_property("key").unwrap(), "second");
}

#[test]
fn test_read_properties_value_with_equals() {
    let content = b"jvm-flags=-Xmx2G=yes\n";
    let props = read_properties(content).expect("parsing must succeed");
    // Only the first `=` splits; the rest belongs to the value.
    assert_eq!(props.get_property("jvm-flags").unwrap(), "-Xmx2G=yes");
}

#[test]
fn test_read_properties_reports_bad_line() {
    let content = b"good=1\nthis line has no equals sign\n";
    let err = read_properties(content).expect_err("parsing must fail");
    assert_eq!(err.line_number, 2);
    match err.kind {
        PropertiesParseErrorKind::InvalidKeyValuePair(e) => {
            assert_eq!(e.0, "this line has no equals sign");
        }
        k => panic!("wrong error kind: {k:?}"),
    }
}

#[test]
fn test_read_properties_reports_unreadable_line() {
    // 0xFF is never valid UTF-8.
    let content = b"good=1\n\xFF\xFE=2\n";
    let err = read_properties(content).expect_err("parsing must fail");
    assert_eq!(err.line_number, 2);
    assert!(matches!(err.kind, PropertiesParseErrorKind::Io(_)));
}

#[test]
fn test_read_properties_keeps_unicode_values() {
    let content = "greeting=こんにちは世界\n".as_bytes();
    let props = read_properties(content).expect("parsing must succeed");
    assert_eq!(props.get_property("greeting").unwrap(), "こんにちは世界");
}

#[test]
fn test_enum_settings_from_names() {
    assert_eq!(gamemode_of("creative"), Gamemode::CREATIVE);
    assert_eq!(gamemode_of("survival"), Gamemode::SURVIVAL);
    assert_eq!(gamemode_of("spectator"), Gamemode::SPECTATOR);
    assert_eq!(gamemode_of("adventure"), Gamemode::ADVENTURE);
    assert_eq!(gamemode_of("unknown"), Gamemode::SURVIVAL);

    assert_eq!(difficulty_of("normal"), Difficulty::NORMAL);
    assert_eq!(difficulty_of("easy"), Difficulty::EASY);
    assert_eq!(difficulty_of("hard"), Difficulty::HARD);
    assert_eq!(difficulty_of("peaceful"), Difficulty::EASY);

    assert_eq!(world_preset_of("normal"), WorlPreset::NORMAL);
    assert_eq!(world_preset_of("flat"), WorlPreset::FLAT);
    assert_eq!(world_preset_of("large_biomes"), WorlPreset::LARGEBIOMES);
    assert_eq!(world_preset_of("amplified"), WorlPreset::SINGLEBIOMESURFACE);
    assert_eq!(
        world_preset_of("single_biome_surface"),
        WorlPreset::AMPLIFIED
    );
    assert_eq!(world_preset_of("minecraft:normal"), WorlPreset::NORMAL);
}

#[test]
fn test_parse_bool() {
    assert_eq!(parse_bool("true"), Some(true));
    assert_eq!(parse_bool("false"), Some(false));
    assert_eq!(parse_bool("TRUE"), None);
    assert_eq!(parse_bool(""), None);
}

#[test]
fn test_parse_u16() {
    assert_eq!(parse_u16("25565"), Some(25565));
    assert_eq!(parse_u16("0"), Some(0));
    assert_eq!(parse_u16("+80"), Some(80));
    assert_eq!(parse_u16("65535"), Some(65535));
    assert_eq!(parse_u16("65536"), None);
    assert_eq!(parse_u16("123456789"), None);
    assert_eq!(parse_u16("12a"), None);
    assert_eq!(parse_u16("-1"), None);
    assert_eq!(parse_u16(""), None);
    assert_eq!(parse_u16("+"), None);
}

#[test]
fn test_parse_other_widths() {
    assert_eq!(parse_u8("100"), Some(100));
    assert_eq!(parse_u8("255"), Some(255));
    assert_eq!(parse_u8("256"), None);

    assert_eq!(parse_u32("29999984"), Some(29999984));
    assert_eq!(parse_u32("4294967295"), Some(u32::MAX));
    assert_eq!(parse_u32("4294967296"), None);

    assert_eq!(parse_i32("-1"), Some(-1));
    assert_eq!(parse_i32("256"), Some(256));
    assert_eq!(parse_i32("2147483647"), Some(i32::MAX));
    assert_eq!(parse_i32("2147483648"), None);
    assert_eq!(parse_i32("-2147483648"), Some(i32::MIN));
    assert_eq!(parse_i32("-2147483649"), None);
    assert_eq!(parse_i32("-"), None);
    assert_eq!(parse_i32("- 1"), None);

    assert_eq!(parse_i64("60000"), Some(60000));
    assert_eq!(parse_i64("-9223372036854775808"), Some(i64::MIN));
    assert_eq!(parse_i64("9223372036854775807"), Some(i64::MAX));
    assert_eq!(parse_i64("9223372036854775808"), None);
}

#[test]
fn test_eula_lines() {
    assert!(is_eula_line(b"eula=false"));
    assert!(is_eula_line(b"eula="));
    assert!(!is_eula_line(b"# eula=true"));
    assert!(!is_eula_line(b"eula"));

    assert!(eula_line_agreed(b"eula=true"));
    assert!(eula_line_agreed(b"eula=TRUE"));
    assert!(eula_line_agreed(b"eula=True=later"));
    assert!(!eula_line_agreed(b"eula=false"));
    assert!(!eula_line_agreed(b"eula="));
    assert!(!eula_line_agreed(b"eula=truthful"));
}

#[test]
fn test_parse_command() {
    assert_eq!(parse_command(b"stop"), Command::Stop);
    assert_eq!(parse_command(b"  STOP  \n"), Command::Stop);
    assert_eq!(
        parse_command(b"op Alice\n"),
        Command::MakeOperator(b"Alice".to_vec())
    );
    assert_eq!(
        parse_command(b"OP Bob extra"),
        Command::MakeOperator(b"Bob".to_vec())
    );
    assert_eq!(parse_command(b"op"), Command::MissingOperatorName);
    assert_eq!(parse_command(b"op   \n"), Command::MissingOperatorName);
    assert_eq!(parse_command(b"hello world"), Command::Ignored);
    assert_eq!(parse_command(b""), Command::Ignored);
}

#[test]
fn test_packet_id_try_from() {
    let id = PacketId::try_from(&[0xDD, 0xC7, 0x01, 0x55]).expect("id must decode");
    assert_eq!(id.get_value(), 25565);
    assert_eq!(id.len(), 3);
    assert!(PacketId::try_from(&[0x80]).is_err());
}
