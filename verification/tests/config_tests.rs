use toto::config::{resolve_trick_paths, Config, KeysConfig, PickerConfig, TrickPaths};
use toto::files::{default_tricks_dir, is_trick_file};
use toto::usage::usage_path;

#[test]
fn default_config_parses() {
    let config = Config::with_env_shell(None);
    assert!(!config.shell.command.is_empty());
    assert!(config.paths.tricks.is_empty());
}

#[test]
fn picker_default() {
    let config = Config::with_env_shell(Some("zsh".into()));
    assert_eq!(config.picker.preview_height, 7);
    assert_eq!(config.shell.command, "zsh");
    assert_eq!(config.style.tag_color, "cyan");
}

#[test]
fn picker_height_for_fallback() {
    let picker = PickerConfig { preview_height: 7, height: "40%".into(), tricks_height: None };
    assert_eq!(picker.height_for("tricks"), "40%");
    assert_eq!(picker.height_for("pipe"), "40%");
}

#[test]
fn picker_height_for_override() {
    let picker = PickerConfig { preview_height: 7, height: "full".into(), tricks_height: Some("full".into()) };
    assert_eq!(picker.height_for("tricks"), "full");
    assert_eq!(picker.height_for("pipe"), "full");
}

#[test]
fn picker_height_for_partial_override() {
    let picker = PickerConfig { tricks_height: Some("30%".into()), ..Default::default() };
    assert_eq!(picker.height_for("tricks"), "30%");
    assert_eq!(picker.height_for("pipe"), "full");
}

#[test]
fn keys_default() {
    let keys = KeysConfig::default();
    assert_eq!(keys.tricks, "\\C-t");
}

#[test]
fn default_dirs_exist() {
    let _ = default_tricks_dir(None);
    assert_eq!(default_tricks_dir(Some("/data/toto".into())), Some("/data/toto/tricks".to_string()));
    assert_eq!(default_tricks_dir(Some("/data/toto/".into())), Some("/data/toto/tricks".to_string()));
    assert_eq!(usage_path(Some("/d".into())), Some("/d/usage.toml".to_string()));
}

#[test]
fn trick_files_are_recognized() {
    assert!(is_trick_file("/x/git.trick.md"));
    assert!(!is_trick_file("/x/git.md"));
    assert!(!is_trick_file("trick.md"));
}

#[test]
fn trick_paths_precedence() {
    let mut config = Config::with_env_shell(None);
    match resolve_trick_paths(Some("a::~/b"), Some("c"), &config, None, false) {
        TrickPaths::Cli(v) => assert_eq!(v, vec!["a".to_string(), "~/b".to_string()]),
        _ => panic!("the flag wins"),
    }
    match resolve_trick_paths(None, Some("c:d"), &config, None, false) {
        TrickPaths::Env(v) => assert_eq!(v, vec!["c".to_string(), "d".to_string()]),
        _ => panic!("the environment comes next"),
    }
    assert!(matches!(resolve_trick_paths(None, None, &config, Some("/t".into()), true), TrickPaths::Default(_)));
    assert!(matches!(resolve_trick_paths(None, None, &config, Some("/t".into()), false), TrickPaths::Nothing));
    config.paths.tricks.push("~/tricks".into());
    match resolve_trick_paths(None, None, &config, Some("/t".into()), true) {
        TrickPaths::Config(v) => assert_eq!(v, vec!["~/tricks".to_string()]),
        _ => panic!("the configuration comes before the default"),
    }
}
