use kaguya::config::{GameConfig, VaultConfig};
use kaguya::index::{IndexOp, IntegrityIndex};
use kaguya::sync::{sync, KEY_VAULT_CONFIG_HASH};

fn game(id: &str, name: &str, paths: &[&str]) -> GameConfig {
    GameConfig {
        id: id.to_string(),
        name: name.to_string(),
        paths: paths.iter().map(|s| s.to_string()).collect(),
        comment: None,
        keep_versions: None,
    }
}

fn ids(index: &IntegrityIndex) -> Vec<String> {
    let mut v: Vec<String> = index.list_games().into_iter().map(|g| g.external_id).collect();
    v.sort();
    v
}

fn pairs(index: &IntegrityIndex) -> Vec<(String, String)> {
    let mut v: Vec<(String, String)> =
        index.list_paths().into_iter().map(|p| (p.external_id, p.original_path)).collect();
    v.sort();
    v
}

#[test]
fn second_sync_of_unchanged_config_writes_nothing() {
    let mut index = IntegrityIndex::new();
    let config = VaultConfig { games: vec![game("g1", "G1", &["/a", "/b"])] };
    let first = sync(&mut index, &config, "h1", false, 100).unwrap();
    assert!(!first.is_empty());
    let second = sync(&mut index, &config, "h1", false, 200).unwrap();
    assert!(second.is_empty());
    assert_eq!(index.get_meta_value(KEY_VAULT_CONFIG_HASH), Some("h1".to_string()));
}

#[test]
fn sync_reconciles_renamed_and_removed_games_and_paths() {
    let mut index = IntegrityIndex::new();
    let before = VaultConfig { games: vec![game("g1", "G1", &["/a", "/b"]), game("g2", "G2", &["/c"])] };
    sync(&mut index, &before, "h1", false, 1).unwrap();
    assert_eq!(ids(&index), vec!["g1".to_string(), "g2".to_string()]);

    let after = VaultConfig { games: vec![game("g1", "Game One", &["/b", "/d"]), game("g3", "G3", &["/e"])] };
    sync(&mut index, &after, "h2", false, 2).unwrap();
    assert_eq!(ids(&index), vec!["g1".to_string(), "g3".to_string()]);
    assert_eq!(
        pairs(&index),
        vec![
            ("g1".to_string(), "/b".to_string()),
            ("g1".to_string(), "/d".to_string()),
            ("g3".to_string(), "/e".to_string()),
        ]
    );
    let g1 = index.list_games().into_iter().find(|g| g.external_id == "g1").unwrap();
    assert_eq!(g1.name, "Game One");
    assert_eq!(g1.created_at, 1);
    assert_eq!(g1.updated_at, 2);
}

#[test]
fn unchanged_rows_are_not_rewritten() {
    let mut index = IntegrityIndex::new();
    let config = VaultConfig { games: vec![game("g1", "G1", &["/a"])] };
    sync(&mut index, &config, "h1", false, 1).unwrap();
    let ops = sync(&mut index, &config, "h1", true, 5).unwrap();
    assert_eq!(ops.len(), 1);
    assert!(matches!(ops[0], IndexOp::SetMeta { .. }));
    let g1 = &index.list_games()[0];
    assert_eq!(g1.updated_at, 1);
}

#[test]
fn forced_sync_with_same_hash_reconciles() {
    let mut index = IntegrityIndex::new();
    let config = VaultConfig { games: vec![game("g1", "G1", &["/a"])] };
    sync(&mut index, &config, "h1", false, 1).unwrap();
    let other = VaultConfig { games: Vec::new() };
    let skipped = sync(&mut index, &other, "h1", false, 2).unwrap();
    assert!(skipped.is_empty());
    assert_eq!(ids(&index), vec!["g1".to_string()]);
    sync(&mut index, &other, "h1", true, 3).unwrap();
    assert!(ids(&index).is_empty());
    assert!(pairs(&index).is_empty());
}

#[test]
fn internal_ids_are_resolved_by_external_id() {
    let mut index = IntegrityIndex::new();
    let config = VaultConfig { games: vec![game("g1", "G1", &[]), game("g2", "G2", &[])] };
    sync(&mut index, &config, "h", false, 1).unwrap();
    let a = index.find_internal_id("g1").unwrap();
    let b = index.find_internal_id("g2").unwrap();
    assert_ne!(a, b);
    assert!(index.find_internal_id("g3").is_err());
}

#[test]
fn meta_values_replace_earlier_ones() {
    let mut index = IntegrityIndex::new();
    assert_eq!(index.get_meta_value("schema_version"), None);
    index.update_meta_value("schema_version", "1");
    index.update_meta_value("schema_version", "2");
    assert_eq!(index.get_meta_value("schema_version"), Some("2".to_string()));
}

#[test]
fn prune_ops_name_each_removed_game_and_path_once() {
    let mut index = IntegrityIndex::new();
    let before = VaultConfig { games: vec![game("g1", "G1", &["/a", "/b"]), game("g2", "G2", &["/c"])] };
    sync(&mut index, &before, "h1", false, 1).unwrap();
    let after = VaultConfig { games: vec![game("g1", "G1", &["/b"])] };
    let ops = sync(&mut index, &after, "h2", false, 2).unwrap();
    let deleted_games: Vec<String> = ops
        .iter()
        .filter_map(|op| match op {
            IndexOp::DeleteGame { external_id } => Some(external_id.clone()),
            _ => None,
        })
        .collect();
    let deleted_paths: Vec<(String, String)> = ops
        .iter()
        .filter_map(|op| match op {
            IndexOp::DeletePath { external_id, path } => Some((external_id.clone(), path.clone())),
            _ => None,
        })
        .collect();
    assert_eq!(deleted_games, vec!["g2".to_string()]);
    assert_eq!(deleted_paths, vec![("g1".to_string(), "/a".to_string())]);
}

#[test]
fn kept_game_keeps_internal_id_and_creation_time() {
    let mut index = IntegrityIndex::new();
    sync(&mut index, &VaultConfig { games: vec![game("g1", "Old", &["/a"])] }, "h1", false, 10).unwrap();
    let id = index.find_internal_id("g1").unwrap();
    sync(&mut index, &VaultConfig { games: vec![game("g1", "New", &["/a"])] }, "h2", false, 20).unwrap();
    let row = &index.list_games()[0];
    assert_eq!(row.id, id);
    assert_eq!(row.created_at, 10);
    assert_eq!(row.updated_at, 20);
    assert_eq!(row.name, "New");
}
