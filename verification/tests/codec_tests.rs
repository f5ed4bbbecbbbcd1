use mc_server_wrapper::codec::{decode, decode_loaded, encode};
use mc_server_wrapper::config::{Config, Discord, Logging, Minecraft};
use mc_server_wrapper::errors::{ConfigError, DecodeError};
use mc_server_wrapper::level::Level;

fn custom_config() -> Config {
    Config {
        minecraft: Minecraft {
            server_path: "/srv/mc/paper server.jar".to_owned(),
            memory: 4096,
            jvm_flags: Some("-XX:+UseG1GC \"quoted\" \\slash\nline".to_owned()),
            auto_start: true,
        },
        discord: Some(Discord {
            enable_bridge: false,
            token: "SECRET-REDACTED".to_owned(),
            channel_id: 123456789012345678,
            update_status: false,
            admin_id_list: vec![1, 42, 18446744073709551615],
            command_prefix: "!mc ".to_owned(),
        }),
        logging: Logging { all: Level::Error, self_level: Level::Trace, discord: Level::Warn },
    }
}

#[test]
fn encode_default_exact() {
    let text = encode(&Config::default());
    let expected = "[minecraft]\n\
        server_path = \"./server.jar\"\n\
        memory = 1024\n\
        auto_start = false\n\
        [discord]\n\
        enable_bridge = true\n\
        token = \"\"\n\
        channel_id = 0\n\
        update_status = true\n\
        admin_id_list = []\n\
        command_prefix = \"!mc \"\n\
        [logging]\n\
        all = 2\n\
        self = 4\n\
        discord = 3\n";
    assert_eq!(text, expected);
}

#[test]
fn roundtrip_default() {
    let doc = Config::default();
    let back = decode(&encode(&doc)).unwrap();
    assert_eq!(back.minecraft.server_path, "./server.jar");
    assert_eq!(back.minecraft.memory, 1024);
    assert_eq!(back.minecraft.jvm_flags, None);
    assert_eq!(back.minecraft.auto_start, false);
    let d = back.discord.unwrap();
    assert_eq!(d.enable_bridge, true);
    assert_eq!(d.token, "");
    assert_eq!(d.channel_id, 0);
    assert_eq!(d.update_status, true);
    assert_eq!(d.admin_id_list, Vec::<u64>::new());
    assert_eq!(d.command_prefix, "!mc ");
    assert_eq!(back.logging.all, Level::Warn);
    assert_eq!(back.logging.self_level, Level::Debug);
    assert_eq!(back.logging.discord, Level::Info);
}

#[test]
fn roundtrip_custom() {
    let doc = custom_config();
    let back = decode(&encode(&doc)).unwrap();
    assert_eq!(back.minecraft.server_path, "/srv/mc/paper server.jar");
    assert_eq!(back.minecraft.memory, 4096);
    assert_eq!(
        back.minecraft.jvm_flags.as_deref(),
        Some("-XX:+UseG1GC \"quoted\" \\slash\nline")
    );
    assert_eq!(back.minecraft.auto_start, true);
    let d = back.discord.unwrap();
    assert_eq!(d.enable_bridge, false);
    assert_eq!(d.token, "SECRET-REDACTED");
    assert_eq!(d.channel_id, 123456789012345678);
    assert_eq!(d.update_status, false);
    assert_eq!(d.admin_id_list, vec![1, 42, 18446744073709551615]);
    assert_eq!(d.command_prefix, "!mc ");
    assert_eq!(back.logging.all, Level::Error);
    assert_eq!(back.logging.self_level, Level::Trace);
    assert_eq!(back.logging.discord, Level::Warn);
}

#[test]
fn roundtrip_without_bridge_section() {
    let mut doc = custom_config();
    doc.discord = None;
    doc.minecraft.jvm_flags = None;
    let back = decode(&encode(&doc)).unwrap();
    assert!(back.discord.is_none());
    assert_eq!(back.minecraft.jvm_flags, None);
    assert_eq!(back.minecraft.memory, 4096);
}

#[test]
fn decode_garbage_is_malformed() {
    assert_eq!(decode("complete nonsense\n").unwrap_err(), DecodeError::Malformed);
    assert_eq!(decode("no_equals_sign_here").unwrap_err(), DecodeError::Malformed);
}

#[test]
fn decode_missing_fields_is_schema_mismatch() {
    assert_eq!(decode("[minecraft]\n").unwrap_err(), DecodeError::SchemaMismatch);
    assert_eq!(decode("").unwrap_err(), DecodeError::SchemaMismatch);
}

#[test]
fn decode_memory_out_of_range_is_schema_mismatch() {
    let text = encode(&Config::default()).replace("memory = 1024", "memory = 70000");
    assert_eq!(decode(&text).unwrap_err(), DecodeError::SchemaMismatch);
}

#[test]
fn decode_level_zero_is_schema_mismatch() {
    let text = encode(&Config::default()).replace("all = 2", "all = 0");
    assert_eq!(decode(&text).unwrap_err(), DecodeError::SchemaMismatch);
}

#[test]
fn decode_level_six_is_schema_mismatch() {
    let text = encode(&Config::default()).replace("all = 2", "all = 6");
    assert_eq!(decode(&text).unwrap_err(), DecodeError::SchemaMismatch);
}

#[test]
fn decode_trailing_content_is_schema_mismatch() {
    let mut text = encode(&Config::default());
    text.push_str("extra = 1\n");
    assert_eq!(decode(&text).unwrap_err(), DecodeError::SchemaMismatch);
}

#[test]
fn decode_unterminated_string_is_schema_mismatch() {
    let text = encode(&Config::default()).replace(
        "server_path = \"./server.jar\"",
        "server_path = \"./server.jar",
    );
    assert_eq!(decode(&text).unwrap_err(), DecodeError::SchemaMismatch);
}

#[test]
fn decode_loaded_carries_the_offending_path() {
    let r = decode_loaded("garbage\n", "/etc/wrapper.cfg");
    match r {
        Err(ConfigError::DecodeError { path, cause }) => {
            assert_eq!(path, "/etc/wrapper.cfg");
            assert_eq!(cause, DecodeError::Malformed);
        }
        _ => panic!("expected a decode error"),
    }
}
