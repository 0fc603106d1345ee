use kaguya::config::{
    find_game_mut, find_game_ref, merge_path_lists, AddGameRequest, ConfigService, GameConfig, ListGameRequest,
    RmGameRequest, VaultConfig,
};
use kaguya::error::KaguyaError;

fn strings(items: &[&str]) -> Vec<String> {
    items.iter().map(|s| s.to_string()).collect()
}

fn add(config: &mut VaultConfig, id: &str, name: Option<&str>, paths: &[&str], comment: Option<&str>) {
    let paths = strings(paths);
    let request = AddGameRequest { id, name, paths: Some(&paths), comment };
    ConfigService::add_or_update_game(config, request).unwrap();
}

#[test]
fn config_add_twice_merges_paths_without_duplicates() {
    let mut config = VaultConfig { games: Vec::new() };
    add(&mut config, "g1", None, &["/a"], None);
    add(&mut config, "g1", None, &["/b"], None);
    assert_eq!(config.games.len(), 1);
    assert_eq!(config.games[0].paths, strings(&["/a", "/b"]));
    add(&mut config, "g1", None, &["/a"], None);
    assert_eq!(config.games[0].paths, strings(&["/a", "/b"]));
}

#[test]
fn new_entry_name_defaults_to_id() {
    let mut config = VaultConfig { games: Vec::new() };
    add(&mut config, "outer_wilds", None, &["/saves"], None);
    let g = &config.games[0];
    assert_eq!(g.id, "outer_wilds");
    assert_eq!(g.name, "outer_wilds");
    assert_eq!(g.comment, None);
    assert_eq!(g.keep_versions, None);
}

#[test]
fn merge_overwrites_name_and_comment_only_when_given() {
    let mut config = VaultConfig { games: Vec::new() };
    add(&mut config, "g1", Some("Game One"), &["/a"], Some("first"));
    add(&mut config, "g1", None, &[], None);
    assert_eq!(config.games[0].name, "Game One");
    assert_eq!(config.games[0].comment, Some("first".to_string()));
    add(&mut config, "g1", Some("Renamed"), &[], Some("second"));
    assert_eq!(config.games[0].name, "Renamed");
    assert_eq!(config.games[0].comment, Some("second".to_string()));
    assert_eq!(config.games[0].paths, strings(&["/a"]));
}

#[test]
fn merge_path_lists_keeps_first_seen_order() {
    let merged = merge_path_lists(&strings(&["/x", "/y"]), &strings(&["/y", "/z", "/z", "/w"]));
    assert_eq!(merged, strings(&["/x", "/y", "/z", "/w"]));
}

#[test]
fn from_request_without_paths_is_empty() {
    let request = AddGameRequest { id: "g", name: Some("G"), paths: None, comment: None };
    let g = GameConfig::from_request(request);
    assert_eq!(g.name, "G");
    assert!(g.paths.is_empty());
}

#[test]
fn rm_game_removes_entry() {
    let mut config = VaultConfig { games: Vec::new() };
    add(&mut config, "g1", None, &["/a"], None);
    add(&mut config, "g2", None, &["/b"], None);
    let purge = false;
    ConfigService::rm_game(&mut config, &RmGameRequest { id: "g1", purge: &purge }).unwrap();
    assert_eq!(config.games.len(), 1);
    assert_eq!(config.games[0].id, "g2");
}

#[test]
fn rm_game_missing_is_game_not_found() {
    let mut config = VaultConfig { games: Vec::new() };
    add(&mut config, "g1", None, &["/a"], None);
    let purge = false;
    let r = ConfigService::rm_game(&mut config, &RmGameRequest { id: "nope", purge: &purge });
    assert_eq!(r, Err(KaguyaError::GameNotFound("nope".to_string())));
    assert_eq!(config.games.len(), 1);
}

#[test]
fn find_game_returns_first_match() {
    let mut config = VaultConfig { games: Vec::new() };
    add(&mut config, "g1", None, &["/a"], None);
    add(&mut config, "g2", None, &["/b"], None);
    assert_eq!(find_game_ref(&config.games, "g2").unwrap().paths, strings(&["/b"]));
    assert!(find_game_ref(&config.games, "g3").is_none());
    let g = find_game_mut(&mut config.games, "g1").unwrap();
    g.name = "changed".to_string();
    assert_eq!(config.games[0].name, "changed");
}

#[test]
fn list_games_long_and_short() {
    let mut config = VaultConfig { games: Vec::new() };
    add(&mut config, "g1", Some("Game"), &["/home/u/saves"], Some("c"));
    let long = true;
    let lines = ConfigService::list_games(&config, &ListGameRequest { long: &long });
    assert_eq!(
        lines,
        strings(&["Game ID: g1", "Name: Game", "Comment: c", "Saves and configuration paths:", "\t- /home/u/saves", ""])
    );
    let short = false;
    let lines = ConfigService::list_games(&config, &ListGameRequest { long: &short });
    assert_eq!(lines, strings(&["Game ID: g1", "Saves and configuration paths:", "\t- saves", ""]));
}

#[test]
fn list_games_empty_shows_hint() {
    let config = VaultConfig { games: Vec::new() };
    let long = false;
    let lines = ConfigService::list_games(&config, &ListGameRequest { long: &long });
    assert_eq!(lines.len(), 2);
    assert!(lines[0].starts_with("Games list is empty"));
}

#[test]
fn expand_and_shrink_config_paths() {
    let mut config = VaultConfig { games: Vec::new() };
    add(&mut config, "g1", None, &["~/saves", "/opt/x", "~"], None);
    config.expand_paths("/home/u");
    assert_eq!(config.games[0].paths, strings(&["/home/u/saves", "/opt/x", "/home/u"]));
    config.shrink_paths("/home/u");
    assert_eq!(config.games[0].paths, strings(&["~/saves", "/opt/x", "~"]));
}
