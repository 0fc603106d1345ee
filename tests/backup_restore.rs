use kaguya::backup::{get_time_string, BackupRequest, LocalTime, PrunePolicy, VaultService};
use kaguya::config::{GameConfig, VaultConfig};
use kaguya::error::KaguyaError;
use kaguya::index::{BackupFile, IntegrityIndex};
use kaguya::restore::{
    generate_unique_temp_name, removal_for, restore_layout, restore_targets, EntryKind, Removal, RestoreRequest,
};
use kaguya::sync::sync;

fn game(id: &str, paths: &[&str]) -> GameConfig {
    GameConfig {
        id: id.to_string(),
        name: id.to_string(),
        paths: paths.iter().map(|s| s.to_string()).collect(),
        comment: None,
        keep_versions: None,
    }
}

fn strings(items: &[&str]) -> Vec<String> {
    items.iter().map(|s| s.to_string()).collect()
}

fn file(path: &str, archive: &str) -> BackupFile {
    BackupFile { original_path: path.to_string(), archive_path: archive.to_string(), size_bytes: 10, checksum: "c".to_string() }
}

#[test]
fn backup_of_unconfigured_path_is_path_not_found() {
    let config = VaultConfig { games: vec![game("g1", &["/a"])] };
    let paths = strings(&["/not-configured"]);
    let r = VaultService::backup(&config, &BackupRequest { id: Some("g1"), paths: Some(&paths) });
    assert_eq!(r.unwrap_err(), KaguyaError::PathNotFound("/not-configured".to_string()));
}

#[test]
fn backup_of_unknown_game_is_game_not_found() {
    let config = VaultConfig { games: vec![game("g1", &["/a"])] };
    let r = VaultService::backup(&config, &BackupRequest { id: Some("g9"), paths: None });
    assert_eq!(r.unwrap_err(), KaguyaError::GameNotFound("g9".to_string()));
}

#[test]
fn backup_without_id_skips_games_without_paths() {
    let config = VaultConfig { games: vec![game("g1", &["/a", "/b"]), game("g2", &[]), game("g3", &["/c"])] };
    let jobs = VaultService::backup(&config, &BackupRequest { id: None, paths: None }).unwrap();
    assert_eq!(jobs.len(), 2);
    assert_eq!(jobs[0].game_id, "g1");
    assert_eq!(jobs[0].paths, strings(&["/a", "/b"]));
    assert_eq!(jobs[1].game_id, "g3");
}

#[test]
fn backup_of_listed_paths_keeps_request_order() {
    let config = VaultConfig { games: vec![game("g1", &["/a", "/b"])] };
    let paths = strings(&["/b"]);
    let jobs = VaultService::backup(&config, &BackupRequest { id: Some("g1"), paths: Some(&paths) }).unwrap();
    assert_eq!(jobs.len(), 1);
    assert_eq!(jobs[0].paths, strings(&["/b"]));
}

#[test]
fn version_label_is_zero_padded() {
    let t = LocalTime { year: 2025, month: 3, day: 7, hour: 9, minute: 5, second: 1, epoch_seconds: 0 };
    assert_eq!(get_time_string(&t).unwrap(), "2025-03-07_09-05-01");
    let bad = LocalTime { year: 2025, month: 2, day: 30, hour: 0, minute: 0, second: 0, epoch_seconds: 0 };
    assert!(matches!(get_time_string(&bad), Err(KaguyaError::InvalidInput(_))));
}

#[test]
fn backup_layout_places_archives_in_version_directory() {
    let config = VaultConfig { games: vec![game("g1", &["/home/u/saves", "/home/u/cfg.ini"])] };
    let jobs = VaultService::backup(&config, &BackupRequest { id: Some("g1"), paths: None }).unwrap();
    let plan = VaultService::backup_single_game("/vault", &jobs[0], "2025-01-01_00-00-00").unwrap();
    assert_eq!(plan.version_dir, "/vault/backups/g1/2025-01-01_00-00-00");
    assert_eq!(plan.archives[0].archive, "/vault/backups/g1/2025-01-01_00-00-00/saves.tar.gz");
    assert_eq!(plan.archives[1].archive, "/vault/backups/g1/2025-01-01_00-00-00/cfg.ini.tar.gz");
    assert_eq!(plan.archives[1].source, "/home/u/cfg.ini");
}

#[test]
fn backup_of_root_is_file_name_error() {
    let r = VaultService::backup_single_path("/", "/vault/backups/g1/v");
    assert_eq!(r, Err(KaguyaError::FileNameError("/".to_string())));
}

#[test]
fn recorded_backup_resolves_to_its_archive() {
    let mut index = IntegrityIndex::new();
    let config = VaultConfig { games: vec![game("g1", &["/a", "/b"])] };
    sync(&mut index, &config, "h", false, 1).unwrap();
    let gid = index.find_internal_id("g1").unwrap();
    VaultService::record_backup(&mut index, gid, "v1", 100, vec![file("/a", "/arch/v1/a.tar.gz"), file("/b", "/arch/v1/b.tar.gz")])
        .unwrap();
    VaultService::record_backup(&mut index, gid, "v2", 200, vec![file("/a", "/arch/v2/a.tar.gz")]).unwrap();
    assert_eq!(index.resolve_archive(gid, Some("v1"), "/a").unwrap(), "/arch/v1/a.tar.gz");
    assert_eq!(index.resolve_archive(gid, None, "/a").unwrap(), "/arch/v2/a.tar.gz");
    assert_eq!(index.resolve_archive(gid, None, "/b").unwrap(), "/arch/v1/b.tar.gz");
    assert_eq!(index.resolve_archive(gid, Some("v3"), "/a"), Err(KaguyaError::BackupNotFound("v3".to_string())));
    assert_eq!(index.resolve_archive(gid, Some("v2"), "/b"), Err(KaguyaError::PathNotFound("/b".to_string())));
}

#[test]
fn latest_ignores_insertion_order() {
    let mut index = IntegrityIndex::new();
    let config = VaultConfig { games: vec![game("g1", &["/a"])] };
    sync(&mut index, &config, "h", false, 1).unwrap();
    let gid = index.find_internal_id("g1").unwrap();
    VaultService::record_backup(&mut index, gid, "new", 300, vec![file("/a", "new.tar.gz")]).unwrap();
    VaultService::record_backup(&mut index, gid, "old", 100, vec![file("/a", "old.tar.gz")]).unwrap();
    assert_eq!(index.resolve_archive(gid, None, "/a").unwrap(), "new.tar.gz");
}

#[test]
fn resolve_without_any_backup_is_backup_not_found() {
    let index = IntegrityIndex::new();
    assert!(matches!(index.resolve_archive(1, None, "/a"), Err(KaguyaError::BackupNotFound(_))));
}

#[test]
fn restore_targets_default_to_configured_paths() {
    let mut index = IntegrityIndex::new();
    let config = VaultConfig { games: vec![game("g1", &["/a", "/b"])] };
    sync(&mut index, &config, "h", false, 1).unwrap();
    let t = restore_targets(&config, &index, &RestoreRequest { id: "g1", version: None, paths: None }).unwrap();
    assert_eq!(t.paths, strings(&["/a", "/b"]));
    assert_eq!(t.game_id, index.find_internal_id("g1").unwrap());
    let only = strings(&["/b"]);
    let t = restore_targets(&config, &index, &RestoreRequest { id: "g1", version: Some("v"), paths: Some(&only) }).unwrap();
    assert_eq!(t.paths, only);
    let r = restore_targets(&config, &index, &RestoreRequest { id: "zz", version: None, paths: None });
    assert_eq!(r.unwrap_err(), KaguyaError::GameNotFound("zz".to_string()));
}

#[test]
fn temp_name_has_prefix_pid_and_random_suffix() {
    let name = generate_unique_temp_name(".kaguya-restore", 4242, 8);
    assert!(name.starts_with(".kaguya-restore-4242-"));
    let suffix = &name[".kaguya-restore-4242-".len()..];
    assert_eq!(suffix.len(), 8);
    assert!(suffix.chars().all(|c| c.is_ascii_alphanumeric()));
}

#[test]
fn restore_layout_is_beside_destination() {
    let l = restore_layout("/home/u/saves", "tmp1").unwrap();
    assert_eq!(l.temp_dir, "/home/u/tmp1");
    assert_eq!(l.unpacked, "/home/u/tmp1/saves");
    assert!(matches!(restore_layout("/", "tmp1"), Err(KaguyaError::InvalidInput(_))));
}

#[test]
fn removal_depends_on_entry_kind() {
    assert_eq!(removal_for(EntryKind::Directory), Ok(Removal::RemoveDirAll));
    assert_eq!(removal_for(EntryKind::File), Ok(Removal::RemoveFile));
    assert_eq!(removal_for(EntryKind::Missing), Ok(Removal::Nothing));
    assert!(matches!(removal_for(EntryKind::Other), Err(KaguyaError::InvalidInput(_))));
}

#[test]
fn prune_hook_selects_no_backup() {
    let mut index = IntegrityIndex::new();
    let config = VaultConfig { games: vec![game("g1", &["/a"])] };
    sync(&mut index, &config, "h", false, 1).unwrap();
    let gid = index.find_internal_id("g1").unwrap();
    VaultService::record_backup(&mut index, gid, "v1", 1, vec![file("/a", "a1")]).unwrap();
    VaultService::record_backup(&mut index, gid, "v2", 2, vec![file("/a", "a2")]).unwrap();
    assert!(VaultService::prune(&index, gid, &PrunePolicy { keep_versions: Some(1) }).is_empty());
}
