use kaguya::cli::{
    handle_config, handle_vault, AppContext, Cli, Commands, ConfigOutcome, ConfigSubcommands, GlobalConfig,
    VaultSubcommands, VaultWork,
};
use kaguya::config::VaultConfig;
use kaguya::error::KaguyaError;
use kaguya::index::IntegrityIndex;
use kaguya::paths::{expand_path, get_file_name, join_path, shrink_path};
use kaguya::restore::decimal_string;
use kaguya::sync::sync;

#[test]
fn file_name_is_final_component() {
    assert_eq!(get_file_name("/home/u/saves"), Some("saves".to_string()));
    assert_eq!(get_file_name("/home/u/saves/"), Some("saves".to_string()));
    assert_eq!(get_file_name("/"), None);
    assert_eq!(get_file_name("a/.."), None);
}

#[test]
fn join_adds_one_separator() {
    assert_eq!(join_path("/vault", "g1"), "/vault/g1");
    assert_eq!(join_path("/vault/", "g1"), "/vault/g1");
    assert_eq!(join_path("", "g1"), "g1");
}

#[test]
fn tilde_round_trip() {
    assert_eq!(expand_path("~/saves", "/home/u"), "/home/u/saves");
    assert_eq!(expand_path("~", "/home/u"), "/home/u");
    assert_eq!(expand_path("~x/saves", "/home/u"), "~x/saves");
    assert_eq!(shrink_path("/home/u/saves", "/home/u"), "~/saves");
    assert_eq!(shrink_path("/home/user2/saves", "/home/u"), "/home/user2/saves");
    assert_eq!(shrink_path("/home/u", "/home/u"), "~");
    for p in ["/home/u/a/b", "/home/u", "/etc/x", "/home/uu"] {
        assert_eq!(expand_path(&shrink_path(p, "/home/u"), "/home/u"), p);
    }
}

#[test]
fn decimal_digits() {
    assert_eq!(decimal_string(0), "0");
    assert_eq!(decimal_string(4242), "4242");
    assert_eq!(decimal_string(u32::MAX), "4294967295");
}

fn cli(vault: Option<&str>) -> Cli {
    Cli {
        config: None,
        vault: vault.map(|v| v.to_string()),
        dry_run: true,
        command: Commands::Completion,
    }
}

#[test]
fn context_uses_given_or_default_paths() {
    let c = AppContext::from_cli(&cli(Some("/v")), "/default/vault", "/default/config.toml");
    assert_eq!(c.vault_path, "/v");
    assert_eq!(c.games_path, "/v/vault.toml");
    assert_eq!(c.config_path, "/default/config.toml");
    assert!(c.dry_run);
    let d = AppContext::from_cli(&cli(None), "/default/vault", "/default/config.toml");
    assert_eq!(d.vault_path, "/default/vault");
    let g = GlobalConfig::new(&d);
    assert_eq!(g.vault, "/default/vault");
    assert!(!g.prune);
    assert_eq!(g.keep_versions, 0);
}

#[test]
fn config_handler_adds_lists_and_removes() {
    let mut config = VaultConfig { games: Vec::new() };
    let add = ConfigSubcommands::Add {
        id: "g1".to_string(),
        name: None,
        paths: vec!["/a".to_string()],
        comment: Some("note".to_string()),
    };
    assert!(matches!(handle_config(&add, &mut config), Ok(ConfigOutcome::Changed)));
    assert_eq!(config.games[0].comment, Some("note".to_string()));
    match handle_config(&ConfigSubcommands::List { long: false }, &mut config) {
        Ok(ConfigOutcome::Listed(lines)) => assert_eq!(lines[0], "Game ID: g1"),
        other => panic!("unexpected {:?}", other),
    }
    let rm = ConfigSubcommands::Rm { id: "g1".to_string(), purge: true };
    assert!(matches!(handle_config(&rm, &mut config), Ok(ConfigOutcome::Removed { purge_requested: true })));
    assert!(config.games.is_empty());
    assert_eq!(handle_config(&rm, &mut config).unwrap_err(), KaguyaError::GameNotFound("g1".to_string()));
}

#[test]
fn vault_handler_resolves_work() {
    let mut config = VaultConfig { games: Vec::new() };
    let add = ConfigSubcommands::Add { id: "g1".to_string(), name: None, paths: vec!["/a".to_string()], comment: None };
    handle_config(&add, &mut config).unwrap();
    let mut index = IntegrityIndex::new();
    sync(&mut index, &config, "h", false, 1).unwrap();
    let backup = VaultSubcommands::Backup { id: Some("g1".to_string()), paths: None };
    match handle_vault(&backup, &config, &index) {
        Ok(VaultWork::Backup(jobs)) => assert_eq!(jobs[0].paths, vec!["/a".to_string()]),
        other => panic!("unexpected {:?}", other),
    }
    let bad = VaultSubcommands::Backup { id: Some("g1".to_string()), paths: Some(vec!["/zz".to_string()]) };
    assert_eq!(handle_vault(&bad, &config, &index).unwrap_err(), KaguyaError::PathNotFound("/zz".to_string()));
    let restore = VaultSubcommands::Restore { id: "g1".to_string(), version: Some("v1".to_string()), paths: None };
    match handle_vault(&restore, &config, &index) {
        Ok(VaultWork::Restore { targets, version }) => {
            assert_eq!(targets.paths, vec!["/a".to_string()]);
            assert_eq!(version, Some("v1".to_string()));
        }
        other => panic!("unexpected {:?}", other),
    }
}
