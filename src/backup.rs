//! Backup: which games and paths a request covers, where each version's
//! archives go, and how a finished run is recorded in the index.
use crate::config::{contains_path, find_game_index, first_index, has_id, VaultConfig};
use crate::error::KaguyaError;
use crate::index::{BackupFile, BackupModel, IndexOp, IntegrityIndex, files_view};
use crate::paths::{file_name_of, get_file_name, join_path, join_text};
use vstd::prelude::*;

verus! {

/// A local wall-clock time, with the matching instant in seconds since the
/// Unix epoch (used to order backups independently of the label's format).
#[derive(Debug, Clone, Copy)]
pub struct LocalTime {
    pub year: i32,
    pub month: u32,
    pub day: u32,
    pub hour: u32,
    pub minute: u32,
    pub second: u32,
    pub epoch_seconds: i64,
}

pub open spec fn is_leap_year(y: int) -> bool {
    (y % 4 == 0 && y % 100 != 0) || y % 400 == 0
}

pub open spec fn days_in_month(y: int, m: int) -> int {
    if m == 2 {
        if is_leap_year(y) { 29 } else { 28 }
    } else if m == 4 || m == 6 || m == 9 || m == 11 {
        30
    } else {
        31
    }
}

/// Whether the fields name an existing calendar date and time of day.
pub open spec fn valid_local_time(t: LocalTime) -> bool {
    &&& 1 <= t.month <= 12
    &&& 1 <= t.day <= days_in_month(t.year as int, t.month as int)
    &&& t.hour < 24
    &&& t.minute < 60
    &&& t.second < 60
}

pub open spec fn digit_char(d: int) -> char {
    (('0' as int) + d) as char
}

/// `n` as two decimal digits.
pub open spec fn two_digits(n: int) -> Seq<char> {
    seq![digit_char(n / 10), digit_char(n % 10)]
}

/// `n` as four decimal digits.
pub open spec fn four_digits(n: int) -> Seq<char> {
    two_digits(n / 100) + two_digits(n % 100)
}

/// The version label of a time: `YYYY-MM-DD_HH-MM-SS`.
pub open spec fn version_text(t: LocalTime) -> Seq<char> {
    four_digits(t.year as int) + seq!['-'] + two_digits(t.month as int) + seq!['-'] + two_digits(t.day as int)
        + seq!['_'] + two_digits(t.hour as int) + seq!['-'] + two_digits(t.minute as int) + seq!['-']
        + two_digits(t.second as int)
}

/// Relies on chrono: `NaiveDate::from_ymd_opt` and `and_hms_opt` (defined
/// exactly on real dates and times), and `format("%Y-%m-%d_%H-%M-%S")`
/// (a year in 0..=9999 as four zero-padded digits, the other fields as two).
#[verifier::external_body]
fn format_version(t: &LocalTime) -> (r: Option<String>)
    ensures
        0 <= t.year <= 9999 ==> (r is Some <==> valid_local_time(*t)),
        (0 <= t.year <= 9999 && r is Some) ==> r->0@ == version_text(*t),
{
    chrono::NaiveDate::from_ymd_opt(t.year, t.month, t.day)
        .and_then(|d| d.and_hms_opt(t.hour, t.minute, t.second))
        .map(|dt| dt.format("%Y-%m-%d_%H-%M-%S").to_string())
}

/// The version label for a backup taken at `now`.
pub fn get_time_string(now: &LocalTime) -> (r: Result<String, KaguyaError>)
    ensures
        0 <= now.year <= 9999 ==> (r is Ok <==> valid_local_time(*now)),
        (0 <= now.year <= 9999 && r is Ok) ==> r->Ok_0@ == version_text(*now),
        r matches Err(e) ==> e is InvalidInput,
{
    match format_version(now) {
        Some(s) => Ok(s),
        None => Err(KaguyaError::InvalidInput("not a valid local time".to_string())),
    }
}

/// One event of a backup run, as reported to the user.
#[derive(Debug, Clone)]
pub enum BackupEvent {
    /// A new backup was created.
    Created { external_id: String, total_files: usize, total_size_bytes: u64 },
    /// One path was archived.
    FileBackedUp { original_path: String, archive_path: String, size_bytes: u64 },
    /// One path was skipped.
    FileSkipped { original_path: String, reason: String },
    /// One path failed.
    Error { original_path: String, error_string: String },
}

/// A request to back up every game, one game, or some paths of one game.
#[derive(Debug)]
pub struct BackupRequest<'a> {
    pub id: Option<&'a str>,
    pub paths: Option<&'a Vec<String>>,
}

/// One game to back up and the paths to archive for it.
#[derive(Debug, Clone)]
pub struct BackupJob {
    pub game_id: String,
    pub paths: Vec<String>,
}

impl View for BackupJob {
    type V = (Seq<char>, Seq<Seq<char>>);

    open spec fn view(&self) -> (Seq<char>, Seq<Seq<char>>) {
        (self.game_id@, self.paths.deep_view())
    }
}

pub open spec fn jobs_view(jobs: Seq<BackupJob>) -> Seq<(Seq<char>, Seq<Seq<char>>)> {
    jobs.map_values(|j: BackupJob| j@)
}

/// One job per game that has at least one path, in config order.
pub open spec fn all_jobs(games: Seq<crate::config::GameConfig>) -> Seq<(Seq<char>, Seq<Seq<char>>)>
    decreases games.len(),
{
    if games.len() == 0 {
        Seq::empty()
    } else {
        let rest = all_jobs(games.drop_last());
        if games.last().paths.len() > 0 {
            rest.push((games.last().id@, games.last().paths.deep_view()))
        } else {
            rest
        }
    }
}

/// The job for one game and a path list: none when the list is empty.
pub open spec fn single_job(id: Seq<char>, paths: Seq<Seq<char>>) -> Seq<(Seq<char>, Seq<Seq<char>>)> {
    if paths.len() > 0 {
        seq![(id, paths)]
    } else {
        Seq::empty()
    }
}

/// The position of the first requested path that the game does not list.
pub open spec fn first_unlisted(requested: Seq<Seq<char>>, listed: Seq<Seq<char>>) -> int {
    choose|i: int| 0 <= i < requested.len() && !listed.contains(requested[i])
        && forall|j: int| 0 <= j < i ==> listed.contains(#[trigger] requested[j])
}

fn copy_paths(paths: &Vec<String>) -> (r: Vec<String>)
    ensures
        r.deep_view() == paths.deep_view(),
{
    let r = paths.clone();
    assert(r.deep_view() =~= paths.deep_view());
    r
}

pub open spec fn opt_str_ref_view(o: Option<&str>) -> Option<Seq<char>> {
    match o {
        Some(s) => Some(s@),
        None => None,
    }
}

pub open spec fn opt_paths_view(o: Option<&Vec<String>>) -> Option<Seq<Seq<char>>> {
    match o {
        Some(p) => Some(p.deep_view()),
        None => None,
    }
}

/// What a backup request resolves to. No id: every game with its full path
/// list. An id: that game (`GameNotFound` when it is not configured), with
/// its full list or with the requested paths, each of which must be
/// configured for it (`PathNotFound` for the first that is not, before any
/// work is planned). A game whose path list is empty is skipped.
pub open spec fn backup_outcome(
    games: Seq<crate::config::GameConfig>,
    id: Option<Seq<char>>,
    paths: Option<Seq<Seq<char>>>,
    r: Result<Vec<BackupJob>, KaguyaError>,
) -> bool {
    match id {
        None => r matches Ok(jobs) && jobs_view(jobs@) == all_jobs(games),
        Some(id) => if !has_id(games, id) {
            r matches Err(KaguyaError::GameNotFound(s)) && s@ == id
        } else {
            let g = games[first_index(games, id)];
            match paths {
                None => (r matches Ok(jobs) && jobs_view(jobs@) == single_job(g.id@, g.paths.deep_view())),
                Some(ps) => if forall|i: int| 0 <= i < ps.len() ==> g.paths.deep_view().contains(#[trigger] ps[i]) {
                    (r matches Ok(jobs) && jobs_view(jobs@) == single_job(g.id@, ps))
                } else {
                    (r matches Err(KaguyaError::PathNotFound(p)) && p@ == ps[first_unlisted(ps, g.paths.deep_view())])
                },
            }
        },
    }
}

/// Backs up game saves and configuration: plans the work of one run.
pub struct VaultService;

impl VaultService {
    /// Resolves which games and paths a backup request covers. No id: every
    /// game with its full path list. An id: that game (`GameNotFound` when it
    /// is not configured), with its full list or with the requested paths,
    /// each of which must be configured for it (`PathNotFound` for the first
    /// that is not, before any work is planned). A game whose path list is
    /// empty is skipped.
    pub fn backup(config: &VaultConfig, request: &BackupRequest) -> (r: Result<Vec<BackupJob>, KaguyaError>)
        ensures
            backup_outcome(config.games@, opt_str_ref_view(request.id), opt_paths_view(request.paths), r),
    {
        match request.id {
            None => {
                let mut jobs: Vec<BackupJob> = Vec::new();
                let mut k: usize = 0;
                while k < config.games.len()
                    invariant
                        k <= config.games@.len(),
                        jobs_view(jobs@) == all_jobs(config.games@.take(k as int)),
                    decreases config.games.len() - k,
                {
                    let g = &config.games[k];
                    let ghost before = jobs_view(jobs@);
                    assert(config.games@.take(k + 1).drop_last() =~= config.games@.take(k as int));
                    if g.paths.len() > 0 {
                        let job = BackupJob { game_id: g.id.clone(), paths: copy_paths(&g.paths) };
                        jobs.push(job);
                        assert(jobs_view(jobs@) =~= before.push(job@));
                    }
                    k = k + 1;
                }
                assert(config.games@.take(config.games.len() as int) =~= config.games@);
                Ok(jobs)
            },
            Some(id) => {
                let i = match find_game_index(config.games.as_slice(), id) {
                    Some(i) => i,
                    None => {
                        return Err(KaguyaError::GameNotFound(id.to_string()));
                    },
                };
                let g = &config.games[i];
                let paths = match request.paths {
                    None => copy_paths(&g.paths),
                    Some(ps) => {
                        let mut j: usize = 0;
                        while j < ps.len()
                            invariant
                                request.id == Some(id),
                                request.paths == Some(ps),
                                has_id(config.games@, id@),
                                i < config.games@.len(),
                                i == first_index(config.games@, id@),
                                *g == config.games@[i as int],
                                j <= ps@.len(),
                                forall|q: int| 0 <= q < j ==> g.paths.deep_view().contains(#[trigger] ps.deep_view()[q]),
                            decreases ps.len() - j,
                        {
                            if !contains_path(&g.paths, &ps[j]) {
                                proof {
                                    let f = first_unlisted(ps.deep_view(), g.paths.deep_view());
                                    assert(!g.paths.deep_view().contains(ps.deep_view()[j as int]));
                                    if f < j {
                                        assert(g.paths.deep_view().contains(ps.deep_view()[f]));
                                    } else if f > j {
                                        assert(g.paths.deep_view().contains(ps.deep_view()[j as int]));
                                    }
                                }
                                return Err(KaguyaError::PathNotFound(ps[j].clone()));
                            }
                            j = j + 1;
                        }
                        copy_paths(ps)
                    },
                };
                let mut jobs: Vec<BackupJob> = Vec::new();
                if paths.len() > 0 {
                    let job = BackupJob { game_id: g.id.clone(), paths };
                    jobs.push(job);
                    assert(jobs_view(jobs@) =~= seq![job@]);
                } else {
                    assert(jobs_view(jobs@) =~= Seq::<(Seq<char>, Seq<Seq<char>>)>::empty());
                }
                Ok(jobs)
            },
        }
    }
}


/// Name of the directory under the vault that holds all archives.
pub const BACKUP_DIR: &'static str = "backups";

/// Extension of an archive file.
pub const ARCHIVE_EXTENSION: &'static str = ".tar.gz";

/// `backups/<game-id>/<version>` under the vault.
pub open spec fn version_dir_text(vault: Seq<char>, game_id: Seq<char>, version: Seq<char>) -> Seq<char> {
    join_text(join_text(join_text(vault, BACKUP_DIR@), game_id), version)
}

/// Where the archive of `source` goes in a version directory: the source's
/// final component plus the archive extension.
pub open spec fn archive_text(dir: Seq<char>, source: Seq<char>) -> Seq<char> {
    join_text(dir, file_name_of(source)->0 + ARCHIVE_EXTENSION@)
}

/// One path to archive and the archive file to produce.
#[derive(Debug, Clone)]
pub struct ArchiveTarget {
    pub source: String,
    pub archive: String,
}

/// Everything one game's backup run writes: the version label, the version
/// directory, and one archive per path, in order.
#[derive(Debug, Clone)]
pub struct BackupPlan {
    pub version: String,
    pub version_dir: String,
    pub archives: Vec<ArchiveTarget>,
}

impl VaultService {
    /// The archive file for one source path in a version directory;
    /// `FileNameError` when the path has no final component.
    pub fn backup_single_path(source_path: &str, target_dir: &str) -> (r: Result<String, KaguyaError>)
        ensures
            r is Ok <==> file_name_of(source_path@) is Some,
            r matches Ok(a) ==> a@ == archive_text(target_dir@, source_path@),
            r matches Err(e) ==> (e matches KaguyaError::FileNameError(p) && p@ == source_path@),
    {
        match get_file_name(source_path) {
            Some(name) => {
                let mut leaf = name;
                leaf.append(ARCHIVE_EXTENSION);
                Ok(join_path(target_dir, leaf.as_str()))
            },
            None => Err(KaguyaError::FileNameError(source_path.to_string())),
        }
    }

    /// The layout of one game's backup run at a version: the version
    /// directory and an archive per path; `FileNameError` for the first path
    /// without a final component.
    pub fn backup_single_game(vault_path: &str, job: &BackupJob, version: &str) -> (r: Result<BackupPlan, KaguyaError>)
        ensures
            r is Ok <==> forall|i: int| 0 <= i < job.paths@.len() ==> (#[trigger] file_name_of(job.paths@[i]@)) is Some,
            r matches Ok(plan) ==> {
                &&& plan.version@ == version@
                &&& plan.version_dir@ == version_dir_text(vault_path@, job.game_id@, version@)
                &&& plan.archives@.len() == job.paths@.len()
                &&& forall|i: int| 0 <= i < plan.archives@.len() ==> {
                    &&& (#[trigger] plan.archives@[i]).source@ == job.paths@[i]@
                    &&& plan.archives@[i].archive@ == archive_text(plan.version_dir@, job.paths@[i]@)
                }
            },
            r matches Err(e) ==> e is FileNameError,
    {
        let base = join_path(vault_path, BACKUP_DIR);
        let game_dir = join_path(base.as_str(), job.game_id.as_str());
        let version_dir = join_path(game_dir.as_str(), version);
        let mut archives: Vec<ArchiveTarget> = Vec::new();
        let mut i: usize = 0;
        while i < job.paths.len()
            invariant
                i <= job.paths@.len(),
                version_dir@ == version_dir_text(vault_path@, job.game_id@, version@),
                archives@.len() == i,
                forall|k: int| 0 <= k < i ==> (#[trigger] file_name_of(job.paths@[k]@)) is Some,
                forall|k: int| 0 <= k < i ==> {
                    &&& (#[trigger] archives@[k]).source@ == job.paths@[k]@
                    &&& archives@[k].archive@ == archive_text(version_dir@, job.paths@[k]@)
                },
            decreases job.paths.len() - i,
        {
            match Self::backup_single_path(job.paths[i].as_str(), version_dir.as_str()) {
                Ok(archive) => {
                    archives.push(ArchiveTarget { source: job.paths[i].clone(), archive });
                },
                Err(e) => {
                    return Err(e);
                },
            }
            i = i + 1;
        }
        Ok(BackupPlan { version: version.to_string(), version_dir, archives })
    }

    /// Records a finished run of one game: a backup row at the version and
    /// timestamp, then all its archive files in one batch.
    pub fn record_backup(
        index: &mut IntegrityIndex,
        game_id: i64,
        version: &str,
        timestamp: i64,
        files: Vec<BackupFile>,
    ) -> (r: Result<Vec<IndexOp>, KaguyaError>)
        requires
            old(index)@.wf(),
        ensures
            final(index)@.wf(),
            r is Ok <==> old(index)@.next_id < i64::MAX,
            r matches Ok(ops) ==> {
                &&& final(index)@ == crate::index::apply_ops(old(index)@, ops@)
                &&& final(index)@.backups == old(index)@.backups.push(BackupModel {
                    id: old(index)@.next_id,
                    game_id,
                    version: version@,
                    timestamp,
                    files: files_view(files@),
                })
                &&& final(index)@.games == old(index)@.games
                &&& final(index)@.meta == old(index)@.meta
            },
            r matches Err(_) ==> final(index)@ == old(index)@,
    {
        let ghost m0 = index@;
        let (id, op1) = match index.insert_backup(game_id, version, timestamp) {
            Ok(x) => x,
            Err(e) => {
                return Err(e);
            },
        };
        let ghost m1 = index@;
        let ghost fv = files_view(files@);
        let op2 = match index.insert_backup_files(id, files) {
            Ok(op) => op,
            Err(e) => {
                proof {
                    let n = m0.backups.len() as int;
                    assert(m1.backups[n].id == id);
                }
                return Err(e);
            },
        };
        let mut ops: Vec<IndexOp> = Vec::new();
        ops.push(op1);
        ops.push(op2);
        proof {
            let n = m0.backups.len() as int;
            assert(m1.backups[n].id == id);
            let p = m1.backup_pos(id)->0;
            if p != n {
                assert(m1.backups[p].id != m1.backups[n].id);
            }
            let e = Seq::<IndexOp>::empty();
            assert(crate::index::apply_ops(m0, e) == m0);
            crate::index::lemma_apply_ops_push(m0, e, op1);
            assert(e.push(op1) =~= seq![op1]);
            crate::index::lemma_apply_ops_push(m0, seq![op1], op2);
            assert(seq![op1].push(op2) =~= ops@);
            assert(index@.backups =~= m0.backups.push(BackupModel { id, game_id, version: version@, timestamp, files: fv }));
        }
        Ok(ops)
    }
}


/// A retention policy for a game's backups.
#[derive(Debug, Clone, Copy)]
pub struct PrunePolicy {
    /// How many versions to keep; `None` keeps all of them.
    pub keep_versions: Option<i64>,
}

impl VaultService {
    /// The retention hook: the ids of the backups of `game_id` that `policy`
    /// would remove. The vault defines no retention rule (the retention hint
    /// of a game is recorded but not enforced), so no backup is selected and
    /// archives are never removed through this call.
    pub fn prune(index: &IntegrityIndex, game_id: i64, policy: &PrunePolicy) -> (r: Vec<i64>)
        requires
            index@.wf(),
        ensures
            r@.len() == 0,
    {
        Vec::new()
    }
}

} // verus!
