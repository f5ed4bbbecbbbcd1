use mc_server_wrapper::config::{Config, Opt};
use mc_server_wrapper::errors::MergeError;
use mc_server_wrapper::level::{level_from_int, level_to_int, Level};

#[test]
fn merge_without_bridge_section_is_missing_prerequisite() {
    let mut doc = Config::default();
    doc.discord = None;
    let before_path = doc.minecraft.server_path.clone();
    let args = Opt { bridge_to_discord: true, server_path: Some("/x/y.jar".to_owned()) };
    let r = doc.merge_in_args(args);
    assert_eq!(r, Err(MergeError::MissingPrerequisite));
    assert!(doc.discord.is_none());
    assert_eq!(doc.minecraft.server_path, before_path);
    assert_eq!(doc.minecraft.memory, 1024);
}

#[test]
fn merge_overrides_exactly_the_server_path() {
    let mut doc = Config::default();
    let args = Opt { bridge_to_discord: false, server_path: Some("/x/y.jar".to_owned()) };
    doc.merge_in_args(args).unwrap();
    assert_eq!(doc.minecraft.server_path, "/x/y.jar");
    assert_eq!(doc.minecraft.memory, 1024);
    assert_eq!(doc.minecraft.jvm_flags, None);
    assert_eq!(doc.minecraft.auto_start, false);
    let d = doc.discord.unwrap();
    assert_eq!(d.enable_bridge, true);
    assert_eq!(d.token, "");
    assert_eq!(d.channel_id, 0);
    assert_eq!(d.update_status, true);
    assert_eq!(d.command_prefix, "!mc ");
    assert_eq!(doc.logging.all, Level::Warn);
    assert_eq!(doc.logging.self_level, Level::Debug);
    assert_eq!(doc.logging.discord, Level::Info);
}

#[test]
fn merge_enables_the_bridge_in_place() {
    let mut doc = Config::default();
    doc.discord.as_mut().unwrap().enable_bridge = false;
    let args = Opt { bridge_to_discord: true, server_path: None };
    doc.merge_in_args(args).unwrap();
    assert!(doc.discord.unwrap().enable_bridge);
    assert_eq!(doc.minecraft.server_path, "./server.jar");
}

#[test]
fn merge_with_no_overrides_changes_nothing() {
    let mut doc = Config::default();
    let args = Opt { bridge_to_discord: false, server_path: None };
    doc.merge_in_args(args).unwrap();
    assert_eq!(doc.minecraft.server_path, "./server.jar");
    assert!(doc.discord.unwrap().enable_bridge);
}

#[test]
fn level_wire_mapping_is_fixed() {
    assert_eq!(level_to_int(Level::Error), 1);
    assert_eq!(level_to_int(Level::Warn), 2);
    assert_eq!(level_to_int(Level::Info), 3);
    assert_eq!(level_to_int(Level::Debug), 4);
    assert_eq!(level_to_int(Level::Trace), 5);
    assert_eq!(level_from_int(1), Some(Level::Error));
    assert_eq!(level_from_int(5), Some(Level::Trace));
    assert_eq!(level_from_int(0), None);
    assert_eq!(level_from_int(6), None);
}
