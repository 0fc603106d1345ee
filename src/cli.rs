//! The command surface: parsed commands, the resolved context that every
//! service receives, and the handlers that turn a command into service calls.
use crate::backup::{backup_outcome, opt_paths_view, BackupJob, BackupRequest, VaultService};
use crate::config::{
    added, listing_lines, AddView, removed, text_lines, AddGameRequest, ConfigService, ListGameRequest, RmGameRequest,
    VaultConfig,
};
use crate::error::KaguyaError;
use crate::index::IntegrityIndex;
use crate::paths::{join_path, join_text};
use crate::restore::{restore_outcome, restore_targets, RestoreRequest, RestoreTargets};
use vstd::prelude::*;

verus! {

/// Name of the declarative config file inside the vault.
pub const VAULT_CONFIG_FILE: &'static str = "vault.toml";

/// Name of the relational index file inside the vault.
pub const DB_FILE: &'static str = "kaguya.db";

/// The parsed command line.
#[derive(Debug, Clone)]
pub struct Cli {
    /// Path to the global configuration file, when given.
    pub config: Option<String>,
    /// Path to the vault directory, when given.
    pub vault: Option<String>,
    /// Validate and resolve, but write nothing.
    pub dry_run: bool,
    pub command: Commands,
}

/// The top-level commands.
#[derive(Debug, Clone)]
pub enum Commands {
    /// Generate a shell completion file.
    Completion,
    /// Manage the declarative config.
    Config(ConfigSubcommands),
    /// Back up and restore.
    Vault(VaultSubcommands),
}

/// The `config` subcommands.
#[derive(Debug, Clone)]
pub enum ConfigSubcommands {
    /// Add a game, or merge into the game with this id.
    Add { id: String, name: Option<String>, paths: Vec<String>, comment: Option<String> },
    /// List the configured games.
    List { long: bool },
    /// Remove a game; its archives stay unless a purge is requested.
    Rm { id: String, purge: bool },
}

/// The `vault` subcommands.
#[derive(Debug, Clone)]
pub enum VaultSubcommands {
    /// Back up every game, one game, or some paths of one game.
    Backup { id: Option<String>, paths: Option<Vec<String>> },
    /// Restore a game at a version (or its latest backups).
    Restore { id: String, version: Option<String>, paths: Option<Vec<String>> },
}

/// The resolved context handed to every service.
#[derive(Debug, Clone)]
pub struct AppContext {
    pub vault_path: String,
    pub games_path: String,
    pub config_path: String,
    pub dry_run: bool,
}

fn pick(given: &Option<String>, default: &str) -> (r: String)
    ensures
        r@ == match given {
            Some(g) => g@,
            None => default@,
        },
{
    match given {
        Some(g) => g.clone(),
        None => default.to_string(),
    }
}

impl AppContext {
    /// Resolves the context: the vault and config paths from the command
    /// line, or else the platform defaults; the config file inside the vault.
    pub fn from_cli(cli: &Cli, default_vault: &str, default_config: &str) -> (r: AppContext)
        ensures
            r.vault_path@ == match cli.vault {
                Some(v) => v@,
                None => default_vault@,
            },
            r.config_path@ == match cli.config {
                Some(c) => c@,
                None => default_config@,
            },
            r.games_path@ == join_text(r.vault_path@, VAULT_CONFIG_FILE@),
            r.dry_run == cli.dry_run,
    {
        let vault_path = pick(&cli.vault, default_vault);
        let config_path = pick(&cli.config, default_config);
        let games_path = join_path(vault_path.as_str(), VAULT_CONFIG_FILE);
        AppContext { vault_path, games_path, config_path, dry_run: cli.dry_run }
    }
}

/// The global settings file.
#[derive(Debug, Clone)]
pub struct GlobalConfig {
    pub vault: String,
    pub prune: bool,
    /// How many versions to keep; 0 keeps all.
    pub keep_versions: u32,
}

impl GlobalConfig {
    /// The settings of a context: its vault, no pruning, all versions kept.
    pub fn new(context: &AppContext) -> (r: GlobalConfig)
        ensures
            r.vault@ == context.vault_path@,
            !r.prune,
            r.keep_versions == 0,
    {
        GlobalConfig { vault: context.vault_path.clone(), prune: false, keep_versions: 0 }
    }
}

/// What a `config` subcommand did.
#[derive(Debug, Clone)]
pub enum ConfigOutcome {
    /// The config changed and is to be saved.
    Changed,
    /// The config is unchanged; these lines are to be shown.
    Listed(Vec<String>),
    /// A game was removed and the config is to be saved; its archives are
    /// kept (deleting them, when a purge was requested, is not done here).
    Removed { purge_requested: bool },
}

fn opt_as_str(o: &Option<String>) -> (r: Option<&str>)
    ensures
        crate::config::opt_ref_view(r) == crate::config::opt_str_view(*o),
{
    match o {
        Some(s) => Some(s.as_str()),
        None => None,
    }
}

/// Handles a `config` subcommand on the loaded config.
pub fn handle_config(subcommand: &ConfigSubcommands, config: &mut VaultConfig) -> (r: Result<ConfigOutcome, KaguyaError>)
    ensures
        subcommand matches ConfigSubcommands::Add { id, name, paths, comment } ==> {
            &&& r matches Ok(ConfigOutcome::Changed)
            &&& added(old(config).games@, final(config).games@, AddView {
                id: id@,
                name: crate::config::opt_str_view(*name),
                paths: paths.deep_view(),
                comment: crate::config::opt_str_view(*comment),
            })
        },
        subcommand matches ConfigSubcommands::List { long } ==> {
            &&& r matches Ok(ConfigOutcome::Listed(lines)) && text_lines(lines@) == listing_lines(old(config).games@, *long)
            &&& final(config).games@ == old(config).games@
        },
        subcommand matches ConfigSubcommands::Rm { id, purge } ==> {
            &&& removed(old(config).games@, final(config).games@, id@, match r { Ok(_) => Ok(()), Err(e) => Err(e) })
            &&& r is Ok ==> (r matches Ok(ConfigOutcome::Removed { purge_requested }) && purge_requested == *purge)
        },
{
    match subcommand {
        ConfigSubcommands::Add { id, name, paths, comment } => {
            let request = AddGameRequest {
                id: id.as_str(),
                name: opt_as_str(name),
                paths: Some(paths),
                comment: opt_as_str(comment),
            };
            let _ = ConfigService::add_or_update_game(config, request);
            Ok(ConfigOutcome::Changed)
        },
        ConfigSubcommands::List { long } => {
            let request = ListGameRequest { long };
            Ok(ConfigOutcome::Listed(ConfigService::list_games(config, &request)))
        },
        ConfigSubcommands::Rm { id, purge } => {
            let request = RmGameRequest { id: id.as_str(), purge };
            match ConfigService::rm_game(config, &request) {
                Ok(()) => Ok(ConfigOutcome::Removed { purge_requested: *purge }),
                Err(e) => Err(e),
            }
        },
    }
}

/// The work a `vault` subcommand resolves to.
#[derive(Debug, Clone)]
pub enum VaultWork {
    /// Back up these games and paths.
    Backup(Vec<BackupJob>),
    /// Restore these paths of a game, at a version or the latest backups.
    Restore { targets: RestoreTargets, version: Option<String> },
}

fn opt_paths(o: &Option<Vec<String>>) -> (r: Option<&Vec<String>>)
    ensures
        opt_paths_view(r) == match o {
            Some(p) => Some(p.deep_view()),
            None => None::<Seq<Seq<char>>>,
        },
{
    match o {
        Some(p) => Some(p),
        None => None,
    }
}

/// Handles a `vault` subcommand against the config and the synced index.
pub fn handle_vault(subcommand: &VaultSubcommands, config: &VaultConfig, index: &IntegrityIndex) -> (r: Result<VaultWork, KaguyaError>)
    requires
        index@.wf(),
    ensures
        subcommand matches VaultSubcommands::Backup { id, paths } ==> backup_outcome(
            config.games@,
            crate::config::opt_str_view(*id),
            match paths { Some(p) => Some(p.deep_view()), None => None },
            match r {
                Ok(w) => Ok(w->Backup_0),
                Err(e) => Err(e),
            },
        ) && (r matches Ok(w) ==> w is Backup),
        subcommand matches VaultSubcommands::Restore { id, version, paths } ==> {
            &&& restore_outcome(
                config.games@,
                index@,
                id@,
                match paths { Some(p) => Some(p.deep_view()), None => None },
                match r {
                    Ok(w) => Ok(w->targets),
                    Err(e) => Err(e),
                },
            )
            &&& r matches Ok(w) ==> w is Restore
            &&& r matches Ok(VaultWork::Restore { targets: _, version: v }) ==> v == *version
        },
{
    match subcommand {
        VaultSubcommands::Backup { id, paths } => {
            let request = BackupRequest { id: opt_as_str(id), paths: opt_paths(paths) };
            match VaultService::backup(config, &request) {
                Ok(jobs) => Ok(VaultWork::Backup(jobs)),
                Err(e) => Err(e),
            }
        },
        VaultSubcommands::Restore { id, version, paths } => {
            let request = RestoreRequest { id: id.as_str(), version: opt_as_str(version), paths: opt_paths(paths) };
            match restore_targets(config, index, &request) {
                Ok(targets) => Ok(VaultWork::Restore { targets, version: version.clone() }),
                Err(e) => Err(e),
            }
        },
    }
}

} // verus!
