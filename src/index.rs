//! The relational index: games, their paths, backups with their archive
//! files, and a key-value meta store, held in memory with the invariants that
//! the on-disk schema enforces.
use crate::config::GameConfig;
use crate::error::KaguyaError;
use vstd::prelude::*;

verus! {

/// A game row.
#[derive(Debug, Clone)]
pub struct IndexedGame {
    pub id: i64,
    pub external_id: String,
    pub name: String,
    pub comment: Option<String>,
    pub keep_versions: Option<i64>,
    pub created_at: i64,
    pub updated_at: i64,
}

/// A path row of a game.
#[derive(Debug, Clone)]
pub struct GamePath {
    pub id: Option<i64>,
    pub game_id: Option<i64>,
    pub original_path: String,
}

/// A path row joined with the external id of its game.
#[derive(Debug, Clone)]
pub struct DbPathInfo {
    pub external_id: String,
    pub original_path: String,
}

/// A backup row: one backup run of one game.
#[derive(Debug, Clone)]
pub struct Backup {
    pub id: i64,
    pub game_id: i64,
    pub version: String,
    pub timestamp: i64,
}

/// One archive produced by a backup run.
#[derive(Debug, Clone)]
pub struct BackupFile {
    pub original_path: String,
    pub archive_path: String,
    pub size_bytes: u64,
    pub checksum: String,
}

/// A meta key and its value.
#[derive(Debug, Clone)]
pub struct MetaEntry {
    pub key: String,
    pub value: String,
}

pub struct GameRowView {
    pub id: i64,
    pub external_id: Seq<char>,
    pub name: Seq<char>,
    pub comment: Option<Seq<char>>,
    pub keep_versions: Option<i64>,
    pub created_at: i64,
    pub updated_at: i64,
}

pub open spec fn opt_view(o: Option<String>) -> Option<Seq<char>> {
    match o {
        Some(s) => Some(s@),
        None => None,
    }
}

impl View for IndexedGame {
    type V = GameRowView;

    open spec fn view(&self) -> GameRowView {
        GameRowView {
            id: self.id,
            external_id: self.external_id@,
            name: self.name@,
            comment: opt_view(self.comment),
            keep_versions: self.keep_versions,
            created_at: self.created_at,
            updated_at: self.updated_at,
        }
    }
}

pub struct FileView {
    pub original_path: Seq<char>,
    pub archive_path: Seq<char>,
    pub size_bytes: u64,
    pub checksum: Seq<char>,
}

impl View for BackupFile {
    type V = FileView;

    open spec fn view(&self) -> FileView {
        FileView {
            original_path: self.original_path@,
            archive_path: self.archive_path@,
            size_bytes: self.size_bytes,
            checksum: self.checksum@,
        }
    }
}

/// A game of the model: its row and its paths.
pub struct GameModel {
    pub row: GameRowView,
    pub paths: Seq<Seq<char>>,
}

/// A backup of the model: its row and its archive files.
pub struct BackupModel {
    pub id: i64,
    pub game_id: i64,
    pub version: Seq<char>,
    pub timestamp: i64,
    pub files: Seq<FileView>,
}

/// Mathematical view of the whole index.
pub struct IndexModel {
    pub games: Seq<GameModel>,
    pub backups: Seq<BackupModel>,
    pub meta: Seq<(Seq<char>, Seq<char>)>,
    pub next_id: i64,
}

pub open spec fn seq_unique<T>(s: Seq<T>) -> bool {
    forall|i: int, j: int| 0 <= i < s.len() && 0 <= j < s.len() && i != j ==> s[i] != s[j]
}

impl IndexModel {
    /// The invariants of the schema: unique external ids, unique paths per
    /// game, unique meta keys, and row ids below the next free id.
    pub open spec fn wf(self) -> bool {
        &&& 1 <= self.next_id
        &&& forall|i: int, j: int|
            0 <= i < self.games.len() && 0 <= j < self.games.len() && i != j
                ==> (#[trigger] self.games[i]).row.external_id != (#[trigger] self.games[j]).row.external_id
                    && self.games[i].row.id != self.games[j].row.id
        &&& forall|i: int| 0 <= i < self.games.len() ==> {
            &&& 1 <= (#[trigger] self.games[i]).row.id < self.next_id
            &&& seq_unique(self.games[i].paths)
        }
        &&& forall|i: int| 0 <= i < self.backups.len() ==> 1 <= (#[trigger] self.backups[i]).id < self.next_id
        &&& forall|i: int, j: int|
            0 <= i < self.backups.len() && 0 <= j < self.backups.len() && i != j
                ==> (#[trigger] self.backups[i]).id != (#[trigger] self.backups[j]).id
        &&& forall|i: int, j: int|
            0 <= i < self.meta.len() && 0 <= j < self.meta.len() && i != j
                ==> (#[trigger] self.meta[i]).0 != (#[trigger] self.meta[j]).0
    }

    /// The set of external ids of the games.
    pub open spec fn game_ids(self) -> Set<Seq<char>> {
        Set::new(|e: Seq<char>| exists|i: int| 0 <= i < self.games.len() && (#[trigger] self.games[i]).row.external_id == e)
    }

    /// The set of (external id, path) pairs of the path rows.
    pub open spec fn path_pairs(self) -> Set<(Seq<char>, Seq<char>)> {
        Set::new(|pr: (Seq<char>, Seq<char>)| exists|i: int| 0 <= i < self.games.len()
            && (#[trigger] self.games[i]).row.external_id == pr.0 && self.games[i].paths.contains(pr.1))
    }

    /// The value stored under a meta key.
    pub open spec fn meta_get(self, key: Seq<char>) -> Option<Seq<char>> {
        if exists|i: int| 0 <= i < self.meta.len() && (#[trigger] self.meta[i]).0 == key {
            let i = choose|i: int| 0 <= i < self.meta.len() && (#[trigger] self.meta[i]).0 == key;
            Some(self.meta[i].1)
        } else {
            None
        }
    }

    /// The position of the game with this external id, if any.
    pub open spec fn game_pos(self, external_id: Seq<char>) -> Option<int> {
        if exists|i: int| 0 <= i < self.games.len() && (#[trigger] self.games[i]).row.external_id == external_id {
            Some(choose|i: int| 0 <= i < self.games.len() && (#[trigger] self.games[i]).row.external_id == external_id)
        } else {
            None
        }
    }

    /// The game at position `i` is the one that its external id finds.
    pub proof fn lemma_game_pos(self, i: int)
        requires
            self.wf(),
            0 <= i < self.games.len(),
        ensures
            self.game_pos(self.games[i].row.external_id) == Some(i),
    {
        let e = self.games[i].row.external_id;
        assert(exists|k: int| 0 <= k < self.games.len() && (#[trigger] self.games[k]).row.external_id == e) by {
            assert(self.games[i].row.external_id == e);
        }
        let k = choose|k: int| 0 <= k < self.games.len() && (#[trigger] self.games[k]).row.external_id == e;
        self.lemma_ext_unique(k, i);
    }

    /// Replacing the game at `i` by one with the same external id and row id
    /// keeps the schema invariants (given unique paths) and the set of ids,
    /// and changes only the pairs of that game.
    pub proof fn lemma_update_at(self, i: int, g: GameModel)
        requires
            self.wf(),
            0 <= i < self.games.len(),
            g.row.external_id == self.games[i].row.external_id,
            g.row.id == self.games[i].row.id,
            seq_unique(g.paths),
        ensures
            (IndexModel { games: self.games.update(i, g), ..self }).wf(),
            (IndexModel { games: self.games.update(i, g), ..self }).game_ids() == self.game_ids(),
            forall|pr: (Seq<char>, Seq<char>)| #[trigger] (IndexModel { games: self.games.update(i, g), ..self }).path_pairs().contains(pr)
                <==> ((pr.0 != g.row.external_id && self.path_pairs().contains(pr))
                    || (pr.0 == g.row.external_id && g.paths.contains(pr.1))),
    {
        let n = IndexModel { games: self.games.update(i, g), ..self };
        assert forall|a: int, b: int|
            0 <= a < n.games.len() && 0 <= b < n.games.len() && a != b
            implies (#[trigger] n.games[a]).row.external_id != (#[trigger] n.games[b]).row.external_id
                && n.games[a].row.id != n.games[b].row.id by {
            assert(self.games[a].row.external_id != self.games[b].row.external_id);
        }
        assert forall|a: int| 0 <= a < n.games.len() implies {
            &&& 1 <= (#[trigger] n.games[a]).row.id < n.next_id
            &&& seq_unique(n.games[a].paths)
        } by {
            assert(1 <= self.games[a].row.id < self.next_id);
        }
        assert forall|e: Seq<char>| n.game_ids().contains(e) == self.game_ids().contains(e) by {
            if n.game_ids().contains(e) {
                let k = choose|k: int| 0 <= k < n.games.len() && (#[trigger] n.games[k]).row.external_id == e;
                assert(self.games[k].row.external_id == e);
            }
            if self.game_ids().contains(e) {
                let k = choose|k: int| 0 <= k < self.games.len() && (#[trigger] self.games[k]).row.external_id == e;
                assert(n.games[k].row.external_id == e);
            }
        }
        assert(n.game_ids() =~= self.game_ids());
        assert forall|pr: (Seq<char>, Seq<char>)| #[trigger] n.path_pairs().contains(pr)
            <==> ((pr.0 != g.row.external_id && self.path_pairs().contains(pr))
                || (pr.0 == g.row.external_id && g.paths.contains(pr.1))) by {
            if n.path_pairs().contains(pr) {
                let k = choose|k: int| 0 <= k < n.games.len()
                    && (#[trigger] n.games[k]).row.external_id == pr.0 && n.games[k].paths.contains(pr.1);
                if k != i {
                    assert(self.games[k].row.external_id != self.games[i].row.external_id);
                    assert(self.games[k] == n.games[k]);
                }
            }
            if pr.0 != g.row.external_id && self.path_pairs().contains(pr) {
                let k = choose|k: int| 0 <= k < self.games.len()
                    && (#[trigger] self.games[k]).row.external_id == pr.0 && self.games[k].paths.contains(pr.1);
                assert(k != i);
                assert(n.games[k] == self.games[k]);
            }
            if pr.0 == g.row.external_id && g.paths.contains(pr.1) {
                assert(n.games[i] == g);
            }
        }
    }

    /// Removing the game at `i` keeps the schema invariants and drops exactly
    /// its id and its pairs.
    pub proof fn lemma_remove_at(self, i: int)
        requires
            self.wf(),
            0 <= i < self.games.len(),
        ensures
            (IndexModel { games: self.games.remove(i), ..self }).wf(),
            (IndexModel { games: self.games.remove(i), ..self }).game_ids() == self.game_ids().remove(self.games[i].row.external_id),
            forall|pr: (Seq<char>, Seq<char>)| #[trigger] (IndexModel { games: self.games.remove(i), ..self }).path_pairs().contains(pr)
                <==> (pr.0 != self.games[i].row.external_id && self.path_pairs().contains(pr)),
    {
        let n = IndexModel { games: self.games.remove(i), ..self };
        let e0 = self.games[i].row.external_id;
        assert forall|k: int| 0 <= k < n.games.len() implies #[trigger] n.games[k] == self.games[if k < i { k } else { k + 1 }] by {}
        assert forall|a: int, b: int|
            0 <= a < n.games.len() && 0 <= b < n.games.len() && a != b
            implies (#[trigger] n.games[a]).row.external_id != (#[trigger] n.games[b]).row.external_id
                && n.games[a].row.id != n.games[b].row.id by {
            let a2 = if a < i { a } else { a + 1 };
            let b2 = if b < i { b } else { b + 1 };
            assert(n.games[a] == self.games[a2]);
            assert(n.games[b] == self.games[b2]);
            assert(self.games[a2].row.external_id != self.games[b2].row.external_id);
        }
        assert forall|a: int| 0 <= a < n.games.len() implies {
            &&& 1 <= (#[trigger] n.games[a]).row.id < n.next_id
            &&& seq_unique(n.games[a].paths)
        } by {
            let a2 = if a < i { a } else { a + 1 };
            assert(n.games[a] == self.games[a2]);
            assert(1 <= self.games[a2].row.id < self.next_id);
        }
        assert forall|e: Seq<char>| n.game_ids().contains(e) == self.game_ids().remove(e0).contains(e) by {
            if n.game_ids().contains(e) {
                let k = choose|k: int| 0 <= k < n.games.len() && (#[trigger] n.games[k]).row.external_id == e;
                let k2 = if k < i { k } else { k + 1 };
                assert(n.games[k] == self.games[k2]);
                assert(self.games[k2].row.external_id != self.games[i].row.external_id);
            }
            if self.game_ids().contains(e) && e != e0 {
                let k = choose|k: int| 0 <= k < self.games.len() && (#[trigger] self.games[k]).row.external_id == e;
                assert(k != i);
                let k2 = if k < i { k } else { k - 1 };
                assert(n.games[k2] == self.games[k]);
            }
        }
        assert(n.game_ids() =~= self.game_ids().remove(e0));
        assert forall|pr: (Seq<char>, Seq<char>)| #[trigger] n.path_pairs().contains(pr)
            <==> (pr.0 != e0 && self.path_pairs().contains(pr)) by {
            if n.path_pairs().contains(pr) {
                let k = choose|k: int| 0 <= k < n.games.len()
                    && (#[trigger] n.games[k]).row.external_id == pr.0 && n.games[k].paths.contains(pr.1);
                let k2 = if k < i { k } else { k + 1 };
                assert(n.games[k] == self.games[k2]);
                assert(self.games[k2].row.external_id != self.games[i].row.external_id);
            }
            if pr.0 != e0 && self.path_pairs().contains(pr) {
                let k = choose|k: int| 0 <= k < self.games.len()
                    && (#[trigger] self.games[k]).row.external_id == pr.0 && self.games[k].paths.contains(pr.1);
                assert(k != i);
                let k2 = if k < i { k } else { k - 1 };
                assert(n.games[k2] == self.games[k]);
            }
        }
    }

    /// Two games with the same external id are the same row.
    pub proof fn lemma_ext_unique(self, i: int, j: int)
        requires
            self.wf(),
            0 <= i < self.games.len(),
            0 <= j < self.games.len(),
            self.games[i].row.external_id == self.games[j].row.external_id,
        ensures
            i == j,
    {
        if i != j {
            assert(self.games[i].row.external_id != self.games[j].row.external_id);
        }
    }

    /// The position of the backup with this id, if any.
    pub open spec fn backup_pos(self, id: i64) -> Option<int> {
        if exists|i: int| 0 <= i < self.backups.len() && (#[trigger] self.backups[i]).id == id {
            Some(choose|i: int| 0 <= i < self.backups.len() && (#[trigger] self.backups[i]).id == id)
        } else {
            None
        }
    }

    /// Whether backup `b` belongs to the game and, when a version is given,
    /// carries that version.
    pub open spec fn backup_selected(self, b: int, game_id: i64, version: Option<Seq<char>>) -> bool {
        &&& 0 <= b < self.backups.len()
        &&& self.backups[b].game_id == game_id
        &&& version matches Some(v) ==> self.backups[b].version == v
    }

    /// Whether file `f` of backup `b` is an archive of `path` that a
    /// resolution for this game and version may return.
    pub open spec fn archive_candidate(self, b: int, f: int, game_id: i64, version: Option<Seq<char>>, path: Seq<char>) -> bool {
        &&& self.backup_selected(b, game_id, version)
        &&& 0 <= f < self.backups[b].files.len()
        &&& self.backups[b].files[f].original_path == path
    }

    /// The flattened path rows, game by game.
    pub open spec fn flat_paths(self) -> Seq<(Seq<char>, Seq<char>)> {
        flatten_paths(self.games)
    }
}

pub open spec fn flatten_paths(games: Seq<GameModel>) -> Seq<(Seq<char>, Seq<char>)>
    decreases games.len(),
{
    if games.len() == 0 {
        Seq::empty()
    } else {
        let g = games.last();
        flatten_paths(games.drop_last()) + tag_paths(g.row.external_id, g.paths)
    }
}

/// Each path paired with the external id of its game.
pub open spec fn tag_paths(ext: Seq<char>, paths: Seq<Seq<char>>) -> Seq<(Seq<char>, Seq<char>)> {
    paths.map_values(|p: Seq<char>| (ext, p))
}

/// The (external id, path) pairs of path rows.
pub open spec fn path_infos_view(s: Seq<DbPathInfo>) -> Seq<(Seq<char>, Seq<char>)> {
    s.map_values(|p: DbPathInfo| (p.external_id@, p.original_path@))
}


/// One write to the index. The sync engine and the backup service report the
/// writes they made in this form, so that the same writes can be replayed on
/// the persistent store.
#[derive(Debug, Clone)]
pub enum IndexOp {
    /// A new game row (its paths follow in `InsertPaths`).
    InsertGame { game: IndexedGame },
    /// A game row whose name, comment or retention hint changed.
    UpdateGame { game: IndexedGame },
    /// Paths added to a game, in one batch.
    InsertPaths { external_id: String, paths: Vec<String> },
    /// A game removed together with its paths.
    DeleteGame { external_id: String },
    /// One path removed from a game.
    DeletePath { external_id: String, path: String },
    /// A meta value set.
    SetMeta { key: String, value: String },
    /// A new backup row, without files yet.
    InsertBackup { backup: Backup },
    /// The archive files of a backup, in one batch.
    InsertBackupFiles { backup_id: i64, files: Vec<BackupFile> },
}

/// The views of archive files.
pub open spec fn files_view(files: Seq<BackupFile>) -> Seq<FileView> {
    files.map_values(|f: BackupFile| f@)
}

/// The first position of `x` in `s` (meaningful when `s` contains it).
pub open spec fn pos_of<T>(s: Seq<T>, x: T) -> int {
    choose|i: int| 0 <= i < s.len() && s[i] == x
}

/// `meta` with `key` set to `value`.
pub open spec fn meta_set(meta: Seq<(Seq<char>, Seq<char>)>, key: Seq<char>, value: Seq<char>) -> Seq<(Seq<char>, Seq<char>)> {
    if exists|i: int| 0 <= i < meta.len() && (#[trigger] meta[i]).0 == key {
        let i = choose|i: int| 0 <= i < meta.len() && (#[trigger] meta[i]).0 == key;
        meta.update(i, (key, value))
    } else {
        meta.push((key, value))
    }
}

/// What one write does to the index.
pub open spec fn apply_op(m: IndexModel, op: IndexOp) -> IndexModel {
    match op {
        IndexOp::InsertGame { game } => IndexModel {
            games: m.games.push(GameModel { row: game@, paths: Seq::empty() }),
            next_id: (game.id + 1) as i64,
            ..m
        },
        IndexOp::UpdateGame { game } => match m.game_pos(game.external_id@) {
            Some(i) => IndexModel {
                games: m.games.update(i, GameModel { row: game@, paths: m.games[i].paths }),
                ..m
            },
            None => m,
        },
        IndexOp::InsertPaths { external_id, paths } => match m.game_pos(external_id@) {
            Some(i) => IndexModel {
                games: m.games.update(i, GameModel { row: m.games[i].row, paths: m.games[i].paths + paths.deep_view() }),
                ..m
            },
            None => m,
        },
        IndexOp::DeleteGame { external_id } => match m.game_pos(external_id@) {
            Some(i) => IndexModel { games: m.games.remove(i), ..m },
            None => m,
        },
        IndexOp::DeletePath { external_id, path } => match m.game_pos(external_id@) {
            Some(i) => if m.games[i].paths.contains(path@) {
                IndexModel {
                    games: m.games.update(i, GameModel {
                        row: m.games[i].row,
                        paths: m.games[i].paths.remove(pos_of(m.games[i].paths, path@)),
                    }),
                    ..m
                }
            } else {
                m
            },
            None => m,
        },
        IndexOp::SetMeta { key, value } => IndexModel { meta: meta_set(m.meta, key@, value@), ..m },
        IndexOp::InsertBackup { backup } => IndexModel {
            backups: m.backups.push(BackupModel {
                id: backup.id,
                game_id: backup.game_id,
                version: backup.version@,
                timestamp: backup.timestamp,
                files: Seq::empty(),
            }),
            next_id: (backup.id + 1) as i64,
            ..m
        },
        IndexOp::InsertBackupFiles { backup_id, files } => match m.backup_pos(backup_id) {
            Some(b) => IndexModel {
                backups: m.backups.update(b, BackupModel {
                    files: m.backups[b].files + files_view(files@),
                    ..m.backups[b]
                }),
                ..m
            },
            None => m,
        },
    }
}

/// What a sequence of writes does to the index, in order.
pub open spec fn apply_ops(m: IndexModel, ops: Seq<IndexOp>) -> IndexModel
    decreases ops.len(),
{
    if ops.len() == 0 {
        m
    } else {
        apply_op(apply_ops(m, ops.drop_last()), ops.last())
    }
}

pub proof fn lemma_apply_ops_concat(m: IndexModel, a: Seq<IndexOp>, b: Seq<IndexOp>)
    ensures
        apply_ops(m, a + b) == apply_ops(apply_ops(m, a), b),
    decreases b.len(),
{
    if b.len() == 0 {
        assert(a + b =~= a);
    } else {
        lemma_apply_ops_concat(m, a, b.drop_last());
        assert((a + b).drop_last() =~= a + b.drop_last());
    }
}

pub proof fn lemma_apply_ops_push(m: IndexModel, ops: Seq<IndexOp>, op: IndexOp)
    ensures
        apply_ops(m, ops.push(op)) == apply_op(apply_ops(m, ops), op),
{
    assert(ops.push(op).drop_last() =~= ops);
}

struct GameSlot {
    game: IndexedGame,
    paths: Vec<String>,
}

struct BackupSlot {
    backup: Backup,
    files: Vec<BackupFile>,
}

/// The relational index held in memory.
pub struct IntegrityIndex {
    games: Vec<GameSlot>,
    backups: Vec<BackupSlot>,
    meta: Vec<MetaEntry>,
    next_id: i64,
}

impl GameSlot {
    spec fn model(self) -> GameModel {
        GameModel { row: self.game@, paths: self.paths.deep_view() }
    }
}

impl BackupSlot {
    spec fn model(self) -> BackupModel {
        BackupModel {
            id: self.backup.id,
            game_id: self.backup.game_id,
            version: self.backup.version@,
            timestamp: self.backup.timestamp,
            files: files_view(self.files@),
        }
    }
}

impl View for IntegrityIndex {
    type V = IndexModel;

    closed spec fn view(&self) -> IndexModel {
        IndexModel {
            games: self.games@.map_values(|g: GameSlot| g.model()),
            backups: self.backups@.map_values(|b: BackupSlot| b.model()),
            meta: self.meta@.map_values(|m: MetaEntry| (m.key@, m.value@)),
            next_id: self.next_id,
        }
    }
}

fn copy_opt(o: &Option<String>) -> (r: Option<String>)
    ensures
        r == *o,
{
    match o {
        Some(s) => Some(s.clone()),
        None => None,
    }
}

impl BackupFile {
    /// A copy of the record.
    pub fn duplicate(&self) -> (r: BackupFile)
        ensures
            r == *self,
    {
        BackupFile {
            original_path: self.original_path.clone(),
            archive_path: self.archive_path.clone(),
            size_bytes: self.size_bytes,
            checksum: self.checksum.clone(),
        }
    }
}

fn copy_files(files: &Vec<BackupFile>) -> (r: Vec<BackupFile>)
    ensures
        r@ == files@,
{
    let mut out: Vec<BackupFile> = Vec::new();
    let mut i: usize = 0;
    while i < files.len()
        invariant
            i <= files@.len(),
            out@ == files@.take(i as int),
        decreases files.len() - i,
    {
        out.push(files[i].duplicate());
        assert(out@ =~= files@.take(i + 1));
        i = i + 1;
    }
    assert(files@.take(files.len() as int) =~= files@);
    out
}

impl IndexedGame {
    /// A copy of the row.
    pub fn duplicate(&self) -> (r: IndexedGame)
        ensures
            r == *self,
    {
        IndexedGame {
            id: self.id,
            external_id: self.external_id.clone(),
            name: self.name.clone(),
            comment: copy_opt(&self.comment),
            keep_versions: self.keep_versions,
            created_at: self.created_at,
            updated_at: self.updated_at,
        }
    }
}

impl IntegrityIndex {
    /// An empty index, as a fresh schema leaves it.
    pub fn new() -> (r: IntegrityIndex)
        ensures
            r@.wf(),
            r@.games.len() == 0,
            r@.backups.len() == 0,
            r@.meta.len() == 0,
    {
        let r = IntegrityIndex { games: Vec::new(), backups: Vec::new(), meta: Vec::new(), next_id: 1 };
        assert(r@.games =~= Seq::empty());
        r
    }

    /// The position of the game with this external id.
    pub(crate) fn game_index(&self, external_id: &str) -> (r: Option<usize>)
        requires
            self@.wf(),
        ensures
            r is Some <==> self@.game_ids().contains(external_id@),
            r matches Some(i) ==> i < self@.games.len() && self@.games[i as int].row.external_id == external_id@
                && self@.game_pos(external_id@) == Some(i as int),
            r is None ==> self@.game_pos(external_id@) is None,
    {
        let key = external_id.to_string();
        let mut i: usize = 0;
        while i < self.games.len()
            invariant
                self@.wf(),
                i <= self.games@.len(),
                key@ == external_id@,
                forall|j: int| 0 <= j < i ==> (#[trigger] self@.games[j]).row.external_id != external_id@,
            decreases self.games.len() - i,
        {
            if self.games[i].game.external_id == key {
                assert(self@.games[i as int].row.external_id == external_id@);
                proof {
                    let k = choose|k: int| 0 <= k < self@.games.len() && (#[trigger] self@.games[k]).row.external_id == external_id@;
                    self@.lemma_ext_unique(k, i as int);
                }
                return Some(i);
            }
            i = i + 1;
        }
        assert(!self@.game_ids().contains(external_id@)) by {
            if self@.game_ids().contains(external_id@) {
                let k = choose|k: int| 0 <= k < self@.games.len() && (#[trigger] self@.games[k]).row.external_id == external_id@;
                assert(self@.games[k].row.external_id != external_id@);
            }
        }
        None
    }

    /// The internal id of the game with this external id.
    pub fn find_internal_id(&self, external_id: &str) -> (r: Result<i64, KaguyaError>)
        requires
            self@.wf(),
        ensures
            r is Ok <==> self@.game_ids().contains(external_id@),
            r matches Ok(id) ==> self@.games[self@.game_pos(external_id@)->0].row.id == id,
            r matches Err(e) ==> e matches KaguyaError::GameNotFound(s) && s@ == external_id@,
    {
        match self.game_index(external_id) {
            Some(i) => Ok(self.games[i].game.id),
            None => Err(KaguyaError::GameNotFound(external_id.to_string())),
        }
    }

    /// All game rows, in index order.
    pub fn list_games(&self) -> (r: Vec<IndexedGame>)
        requires
            self@.wf(),
        ensures
            r@.len() == self@.games.len(),
            forall|i: int| 0 <= i < r@.len() ==> (#[trigger] r@[i])@ == self@.games[i].row,
    {
        let mut out: Vec<IndexedGame> = Vec::new();
        let mut i: usize = 0;
        while i < self.games.len()
            invariant
                i <= self.games@.len(),
                out@.len() == i,
                forall|j: int| 0 <= j < i ==> (#[trigger] out@[j])@ == self@.games[j].row,
            decreases self.games.len() - i,
        {
            out.push(self.games[i].game.duplicate());
            i = i + 1;
        }
        out
    }

    /// All path rows with the external id of their game, game by game.
    pub fn list_paths(&self) -> (r: Vec<DbPathInfo>)
        requires
            self@.wf(),
        ensures
            path_infos_view(r@) == self@.flat_paths(),
    {
        let mut out: Vec<DbPathInfo> = Vec::new();
        let mut i: usize = 0;
        while i < self.games.len()
            invariant
                i <= self.games@.len(),
                self@.wf(),
                path_infos_view(out@) == flatten_paths(self@.games.take(i as int)),
            decreases self.games.len() - i,
        {
            let ghost before = path_infos_view(out@);
            let ghost g = self@.games[i as int];
            assert(self@.games.take(i + 1).drop_last() =~= self@.games.take(i as int));
            assert(self@.games.take(i + 1).last() == g);
            let slot = &self.games[i];
            let mut j: usize = 0;
            while j < slot.paths.len()
                invariant
                    j <= slot.paths@.len(),
                    g == slot.model(),
                    path_infos_view(out@) == before + tag_paths(g.row.external_id, g.paths.take(j as int)),
                decreases slot.paths.len() - j,
            {
                let ghost prev = out@;
                let item = DbPathInfo {
                    external_id: slot.game.external_id.clone(),
                    original_path: slot.paths[j].clone(),
                };
                assert(item.original_path@ == g.paths[j as int]);
                assert(item.external_id@ == g.row.external_id);
                out.push(item);
                assert(out@ == prev.push(item));
                assert(g.paths.take(j + 1) =~= g.paths.take(j as int).push(g.paths[j as int]));
                assert(path_infos_view(out@) =~= path_infos_view(prev).push((item.external_id@, item.original_path@)));
                assert(tag_paths(g.row.external_id, g.paths.take(j + 1)) =~= tag_paths(g.row.external_id, g.paths.take(j as int)).push((g.row.external_id, g.paths[j as int])));
                assert(path_infos_view(out@) =~= before + tag_paths(g.row.external_id, g.paths.take(j + 1)));
                j = j + 1;
            }
            assert(g.paths.take(j as int) =~= g.paths);
            i = i + 1;
        }
        assert(self@.games.take(self.games.len() as int) =~= self@.games);
        out
    }
}


/// The row that a config entry describes, with the given id and times.
pub open spec fn row_for(entry: GameConfig, id: i64, created_at: i64, updated_at: i64) -> GameRowView {
    GameRowView {
        id,
        external_id: entry.id@,
        name: entry.name@,
        comment: opt_view(entry.comment),
        keep_versions: entry.keep_versions,
        created_at,
        updated_at,
    }
}

/// Whether a game row already carries the entry's name, comment and
/// retention hint.
pub open spec fn row_matches(row: GameRowView, entry: GameConfig) -> bool {
    row.name == entry.name@ && row.comment == opt_view(entry.comment) && row.keep_versions == entry.keep_versions
}

fn same_opt(a: &Option<String>, b: &Option<String>) -> (r: bool)
    ensures
        r == (opt_view(*a) == opt_view(*b)),
{
    match (a, b) {
        (Some(x), Some(y)) => *x == *y,
        (None, None) => true,
        _ => false,
    }
}

impl IntegrityIndex {
    /// Adds a row for a config entry whose id is not yet indexed.
    pub(crate) fn insert_game(&mut self, entry: &GameConfig, now: i64) -> (r: Result<IndexOp, KaguyaError>)
        requires
            old(self)@.wf(),
            !old(self)@.game_ids().contains(entry.id@),
        ensures
            r matches Ok(op) ==> {
                &&& final(self)@ == apply_op(old(self)@, op)
                &&& final(self)@.wf()
                &&& op matches IndexOp::InsertGame { game } && game@ == row_for(*entry, old(self)@.next_id, now, now)
                &&& final(self)@.games == old(self)@.games.push(GameModel { row: row_for(*entry, old(self)@.next_id, now, now), paths: Seq::empty() })
                &&& final(self)@.game_ids() == old(self)@.game_ids().insert(entry.id@)
                &&& final(self)@.path_pairs() == old(self)@.path_pairs()
                &&& final(self)@.meta == old(self)@.meta
                &&& final(self)@.backups == old(self)@.backups
            },
            r matches Err(e) ==> final(self)@ == old(self)@ && old(self)@.next_id == i64::MAX && e is Database,
    {
        if self.next_id == i64::MAX {
            return Err(KaguyaError::Database("index id space exhausted".to_string()));
        }
        let row = IndexedGame {
            id: self.next_id,
            external_id: entry.id.clone(),
            name: entry.name.clone(),
            comment: copy_opt(&entry.comment),
            keep_versions: entry.keep_versions,
            created_at: now,
            updated_at: now,
        };
        let ghost old_m = self@;
        self.games.push(GameSlot { game: row.duplicate(), paths: Vec::new() });
        self.next_id = self.next_id + 1;
        let op = IndexOp::InsertGame { game: row };
        proof {
            let new_m = self@;
            let slot_m = GameModel { row: row@, paths: Seq::empty() };
            assert(self.games@.last().paths.deep_view() =~= Seq::<Seq<char>>::empty());
            assert(new_m.games =~= old_m.games.push(slot_m));
            assert(new_m == apply_op(old_m, op));
            let n = old_m.games.len() as int;
            assert forall|i: int, j: int|
                0 <= i < new_m.games.len() && 0 <= j < new_m.games.len() && i != j
                implies (#[trigger] new_m.games[i]).row.external_id != (#[trigger] new_m.games[j]).row.external_id
                    && new_m.games[i].row.id != new_m.games[j].row.id by {
                if i == n {
                    assert(old_m.game_ids().contains(new_m.games[j].row.external_id));
                } else if j == n {
                    assert(old_m.game_ids().contains(new_m.games[i].row.external_id));
                } else {
                    assert(old_m.games[i] == new_m.games[i] && old_m.games[j] == new_m.games[j]);
                }
            }
            assert forall|i: int| 0 <= i < new_m.games.len() implies {
                &&& 1 <= (#[trigger] new_m.games[i]).row.id < new_m.next_id
                &&& seq_unique(new_m.games[i].paths)
            } by {
                if i < n {
                    assert(old_m.games[i] == new_m.games[i]);
                }
            }
            assert(new_m.wf());
            assert forall|e: Seq<char>| new_m.game_ids().contains(e) == old_m.game_ids().insert(entry.id@).contains(e) by {
                if new_m.game_ids().contains(e) {
                    let k = choose|k: int| 0 <= k < new_m.games.len() && (#[trigger] new_m.games[k]).row.external_id == e;
                    if k < n {
                        assert(old_m.games[k] == new_m.games[k]);
                    }
                }
                if old_m.game_ids().contains(e) {
                    let k = choose|k: int| 0 <= k < old_m.games.len() && (#[trigger] old_m.games[k]).row.external_id == e;
                    assert(new_m.games[k] == old_m.games[k]);
                }
                if e == entry.id@ {
                    assert(new_m.games[n].row.external_id == e);
                }
            }
            assert(new_m.game_ids() =~= old_m.game_ids().insert(entry.id@));
            assert forall|pr: (Seq<char>, Seq<char>)| new_m.path_pairs().contains(pr) == old_m.path_pairs().contains(pr) by {
                if new_m.path_pairs().contains(pr) {
                    let k = choose|k: int| 0 <= k < new_m.games.len()
                        && (#[trigger] new_m.games[k]).row.external_id == pr.0 && new_m.games[k].paths.contains(pr.1);
                    if k < n {
                        assert(old_m.games[k] == new_m.games[k]);
                    }
                }
                if old_m.path_pairs().contains(pr) {
                    let k = choose|k: int| 0 <= k < old_m.games.len()
                        && (#[trigger] old_m.games[k]).row.external_id == pr.0 && old_m.games[k].paths.contains(pr.1);
                    assert(new_m.games[k] == old_m.games[k]);
                }
            }
            assert(new_m.path_pairs() =~= old_m.path_pairs());
        }
        Ok(op)
    }
}


impl IntegrityIndex {
    /// Rewrites the name, comment and retention hint of the game at `i` from
    /// a config entry with its external id.
    pub(crate) fn update_game_at(&mut self, i: usize, entry: &GameConfig, now: i64) -> (op: IndexOp)
        requires
            old(self)@.wf(),
            i < old(self)@.games.len(),
            old(self)@.games[i as int].row.external_id == entry.id@,
        ensures
            final(self)@ == apply_op(old(self)@, op),
            final(self)@.wf(),
            op matches IndexOp::UpdateGame { game } && game@ == row_for(
                *entry,
                old(self)@.games[i as int].row.id,
                old(self)@.games[i as int].row.created_at,
                now,
            ),
            final(self)@.games.len() == old(self)@.games.len(),
            forall|k: int| 0 <= k < old(self)@.games.len() && k != i ==> #[trigger] final(self)@.games[k] == old(self)@.games[k],
            final(self)@.games[i as int].paths == old(self)@.games[i as int].paths,
            final(self)@.games[i as int].row == row_for(
                *entry,
                old(self)@.games[i as int].row.id,
                old(self)@.games[i as int].row.created_at,
                now,
            ),
            final(self)@.game_ids() == old(self)@.game_ids(),
            final(self)@.path_pairs() == old(self)@.path_pairs(),
            final(self)@.meta == old(self)@.meta,
            final(self)@.backups == old(self)@.backups,
    {
        let ghost old_m = self@;
        let old_row = &self.games[i].game;
        let row = IndexedGame {
            id: old_row.id,
            external_id: old_row.external_id.clone(),
            name: entry.name.clone(),
            comment: copy_opt(&entry.comment),
            keep_versions: entry.keep_versions,
            created_at: old_row.created_at,
            updated_at: now,
        };
        let paths = self.games[i].paths.clone();
        assert(paths.deep_view() =~= old_m.games[i as int].paths);
        let slot = GameSlot { game: row.duplicate(), paths };
        self.games.set(i, slot);
        let op = IndexOp::UpdateGame { game: row };
        proof {
            let g = GameModel { row: row@, paths: old_m.games[i as int].paths };
            assert(self@.games =~= old_m.games.update(i as int, g));
            old_m.lemma_game_pos(i as int);
            old_m.lemma_update_at(i as int, g);
            assert(self@.path_pairs() =~= old_m.path_pairs()) by {
                assert forall|pr: (Seq<char>, Seq<char>)| self@.path_pairs().contains(pr) == old_m.path_pairs().contains(pr) by {
                    if pr.0 == g.row.external_id && g.paths.contains(pr.1) {
                        assert(old_m.games[i as int].row.external_id == pr.0);
                    }
                    if pr.0 == g.row.external_id && old_m.path_pairs().contains(pr) {
                        let k = choose|k: int| 0 <= k < old_m.games.len()
                            && (#[trigger] old_m.games[k]).row.external_id == pr.0 && old_m.games[k].paths.contains(pr.1);
                        old_m.lemma_ext_unique(k, i as int);
                    }
                }
            }
        }
        op
    }

    /// Adds to the game at `i` each of `paths` that it does not hold yet, in
    /// one batch; no write when all are present.
    pub(crate) fn insert_missing_paths(&mut self, i: usize, paths: &Vec<String>) -> (op: Option<IndexOp>)
        requires
            old(self)@.wf(),
            i < old(self)@.games.len(),
        ensures
            final(self)@.wf(),
            final(self)@.games.len() == old(self)@.games.len(),
            final(self)@.games[i as int].row == old(self)@.games[i as int].row,
            forall|k: int| 0 <= k < old(self)@.games.len() && k != i ==> #[trigger] final(self)@.games[k] == old(self)@.games[k],
            final(self)@.games[i as int].paths == crate::config::merge_paths(old(self)@.games[i as int].paths, paths.deep_view()),
            op matches Some(o) ==> final(self)@ == apply_op(old(self)@, o),
            op matches Some(o) ==> (o matches IndexOp::InsertPaths { external_id, paths: _ }
                && external_id@ == old(self)@.games[i as int].row.external_id),
            op is None ==> final(self)@ == old(self)@,
            final(self)@.game_ids() == old(self)@.game_ids(),
            forall|pr: (Seq<char>, Seq<char>)| #[trigger] final(self)@.path_pairs().contains(pr)
                <==> (old(self)@.path_pairs().contains(pr)
                    || (pr.0 == old(self)@.games[i as int].row.external_id && paths.deep_view().contains(pr.1))),
            final(self)@.meta == old(self)@.meta,
            final(self)@.backups == old(self)@.backups,
    {
        let ghost old_m = self@;
        let ghost ext = old_m.games[i as int].row.external_id;
        let ghost cur = old_m.games[i as int].paths;
        let merged = crate::config::merge_path_lists(&self.games[i].paths, paths);
        proof {
            crate::config::lemma_merge_paths(cur, paths.deep_view());
        }
        let start = self.games[i].paths.len();
        let mut added: Vec<String> = Vec::new();
        let mut k: usize = start;
        while k < merged.len()
            invariant
                start == cur.len(),
                start <= k <= merged@.len(),
                merged.deep_view().take(start as int) == cur,
                added.deep_view() == merged.deep_view().subrange(start as int, k as int),
            decreases merged.len() - k,
        {
            let ghost prev = added.deep_view();
            let item = merged[k].clone();
            assert(item@ == merged.deep_view()[k as int]);
            added.push(item);
            assert(added.deep_view() =~= prev.push(item@));
            assert(added.deep_view() =~= merged.deep_view().subrange(start as int, k + 1));
            k = k + 1;
        }
        assert(cur + added.deep_view() =~= merged.deep_view());
        if added.len() == 0 {
            proof {
                assert(merged.deep_view() =~= cur);
                assert forall|pr: (Seq<char>, Seq<char>)| #[trigger] self@.path_pairs().contains(pr)
                    <==> (old_m.path_pairs().contains(pr) || (pr.0 == ext && paths.deep_view().contains(pr.1))) by {
                    if pr.0 == ext && paths.deep_view().contains(pr.1) {
                        assert(merged.deep_view().contains(pr.1));
                        assert(old_m.games[i as int].row.external_id == pr.0);
                    }
                }
            }
            return None;
        }
        let external_id = self.games[i].game.external_id.clone();
        let row = self.games[i].game.duplicate();
        self.games.set(i, GameSlot { game: row, paths: merged });
        let op = IndexOp::InsertPaths { external_id, paths: added };
        proof {
            let g = GameModel { row: old_m.games[i as int].row, paths: merged.deep_view() };
            assert(self@.games =~= old_m.games.update(i as int, g));
            old_m.lemma_game_pos(i as int);
            old_m.lemma_update_at(i as int, g);
            assert forall|pr: (Seq<char>, Seq<char>)| #[trigger] self@.path_pairs().contains(pr)
                <==> (old_m.path_pairs().contains(pr) || (pr.0 == ext && paths.deep_view().contains(pr.1))) by {
                if pr.0 == ext && old_m.path_pairs().contains(pr) {
                    let k = choose|k: int| 0 <= k < old_m.games.len()
                        && (#[trigger] old_m.games[k]).row.external_id == pr.0 && old_m.games[k].paths.contains(pr.1);
                    old_m.lemma_ext_unique(k, i as int);
                }
            }
        }
        Some(op)
    }

    /// Removes the game at `i` together with its paths.
    pub(crate) fn delete_game_at(&mut self, i: usize) -> (op: IndexOp)
        requires
            old(self)@.wf(),
            i < old(self)@.games.len(),
        ensures
            final(self)@ == apply_op(old(self)@, op),
            final(self)@.wf(),
            op matches IndexOp::DeleteGame { external_id } && external_id@ == old(self)@.games[i as int].row.external_id,
            final(self)@.games == old(self)@.games.remove(i as int),
            final(self)@.game_ids() == old(self)@.game_ids().remove(old(self)@.games[i as int].row.external_id),
            forall|pr: (Seq<char>, Seq<char>)| #[trigger] final(self)@.path_pairs().contains(pr)
                <==> (pr.0 != old(self)@.games[i as int].row.external_id && old(self)@.path_pairs().contains(pr)),
            final(self)@.meta == old(self)@.meta,
            final(self)@.backups == old(self)@.backups,
    {
        let ghost old_m = self@;
        let slot = self.games.remove(i);
        let op = IndexOp::DeleteGame { external_id: slot.game.external_id };
        proof {
            assert(self@.games =~= old_m.games.remove(i as int));
            old_m.lemma_game_pos(i as int);
            old_m.lemma_remove_at(i as int);
        }
        op
    }

    /// Removes path `j` from the game at `i`.
    pub(crate) fn delete_path_at(&mut self, i: usize, j: usize) -> (op: IndexOp)
        requires
            old(self)@.wf(),
            i < old(self)@.games.len(),
            j < old(self)@.games[i as int].paths.len(),
        ensures
            final(self)@ == apply_op(old(self)@, op),
            final(self)@.wf(),
            final(self)@.games.len() == old(self)@.games.len(),
            final(self)@.games[i as int].row == old(self)@.games[i as int].row,
            final(self)@.games[i as int].paths == old(self)@.games[i as int].paths.remove(j as int),
            op matches IndexOp::DeletePath { external_id, path } && external_id@ == old(self)@.games[i as int].row.external_id
                && path@ == old(self)@.games[i as int].paths[j as int],
            forall|k: int| 0 <= k < old(self)@.games.len() && k != i ==> #[trigger] final(self)@.games[k] == old(self)@.games[k],
            final(self)@.game_ids() == old(self)@.game_ids(),
            forall|pr: (Seq<char>, Seq<char>)| #[trigger] final(self)@.path_pairs().contains(pr)
                <==> (old(self)@.path_pairs().contains(pr) && pr != (old(self)@.games[i as int].row.external_id,
                    old(self)@.games[i as int].paths[j as int])),
            final(self)@.meta == old(self)@.meta,
            final(self)@.backups == old(self)@.backups,
    {
        let ghost old_m = self@;
        let ghost cur = old_m.games[i as int].paths;
        let ghost ext = old_m.games[i as int].row.external_id;
        let ghost p = cur[j as int];
        let mut paths = self.games[i].paths.clone();
        assert(paths.deep_view() =~= cur);
        let path = paths.remove(j);
        assert(paths.deep_view() =~= cur.remove(j as int));
        let row = self.games[i].game.duplicate();
        let external_id = row.external_id.clone();
        self.games.set(i, GameSlot { game: row, paths });
        let op = IndexOp::DeletePath { external_id, path };
        proof {
            let g = GameModel { row: old_m.games[i as int].row, paths: cur.remove(j as int) };
            assert(self@.games =~= old_m.games.update(i as int, g));
            assert(seq_unique(cur));
            assert forall|a: int, b: int| 0 <= a < g.paths.len() && 0 <= b < g.paths.len() && a != b implies g.paths[a] != g.paths[b] by {
                let a2 = if a < j { a } else { a + 1 };
                let b2 = if b < j { b } else { b + 1 };
                assert(g.paths[a] == cur[a2] && g.paths[b] == cur[b2]);
            }
            old_m.lemma_game_pos(i as int);
            old_m.lemma_update_at(i as int, g);
            assert(cur.contains(p));
            let q = pos_of(cur, p);
            assert(q == j as int) by {
                if q != j as int {
                    assert(cur[q] != cur[j as int]);
                }
            }
            assert forall|x: Seq<char>| g.paths.contains(x) <==> (cur.contains(x) && x != p) by {
                if g.paths.contains(x) {
                    let a = choose|a: int| 0 <= a < g.paths.len() && g.paths[a] == x;
                    let a2 = if a < j { a } else { a + 1 };
                    assert(g.paths[a] == cur[a2]);
                    assert(a2 != j as int);
                    assert(cur[a2] != cur[j as int]);
                }
                if cur.contains(x) && x != p {
                    let a = choose|a: int| 0 <= a < cur.len() && cur[a] == x;
                    assert(a != j as int);
                    let a2 = if a < j { a } else { a - 1 };
                    assert(g.paths[a2] == x);
                }
            }
            assert forall|pr: (Seq<char>, Seq<char>)| #[trigger] self@.path_pairs().contains(pr)
                <==> (old_m.path_pairs().contains(pr) && pr != (ext, p)) by {
                if pr.0 == ext && old_m.path_pairs().contains(pr) {
                    let k = choose|k: int| 0 <= k < old_m.games.len()
                        && (#[trigger] old_m.games[k]).row.external_id == pr.0 && old_m.games[k].paths.contains(pr.1);
                    old_m.lemma_ext_unique(k, i as int);
                }
                if pr.0 == ext && g.paths.contains(pr.1) {
                    assert(old_m.games[i as int].row.external_id == pr.0);
                }
            }
        }
        op
    }

    /// The value stored under a meta key.
    pub fn get_meta_value(&self, key: &str) -> (r: Option<String>)
        requires
            self@.wf(),
        ensures
            opt_view(r) == self@.meta_get(key@),
    {
        let k = key.to_string();
        let mut i: usize = 0;
        while i < self.meta.len()
            invariant
                self@.wf(),
                i <= self.meta@.len(),
                k@ == key@,
                self@.meta.len() == self.meta@.len(),
                forall|j: int| 0 <= j < i ==> (#[trigger] self@.meta[j]).0 != key@,
            decreases self.meta.len() - i,
        {
            if self.meta[i].key == k {
                proof {
                    assert(self@.meta[i as int].0 == key@);
                    let c = choose|c: int| 0 <= c < self@.meta.len() && (#[trigger] self@.meta[c]).0 == key@;
                    if c != i as int {
                        assert(self@.meta[c].0 != self@.meta[i as int].0);
                    }
                }
                return Some(self.meta[i].value.clone());
            }
            i = i + 1;
        }
        proof {
            if exists|c: int| 0 <= c < self@.meta.len() && (#[trigger] self@.meta[c]).0 == key@ {
                let c = choose|c: int| 0 <= c < self@.meta.len() && (#[trigger] self@.meta[c]).0 == key@;
                assert(self@.meta[c].0 != key@);
            }
        }
        None
    }

    /// Sets a meta key to a value, replacing any earlier value.
    pub fn update_meta_value(&mut self, key: &str, value: &str) -> (op: IndexOp)
        requires
            old(self)@.wf(),
        ensures
            final(self)@ == apply_op(old(self)@, op),
            final(self)@.wf(),
            op matches IndexOp::SetMeta { key: k, value: v } && k@ == key@ && v@ == value@,
            final(self)@.meta_get(key@) == Some(value@),
            final(self)@.games == old(self)@.games,
            final(self)@.backups == old(self)@.backups,
    {
        let ghost old_m = self@;
        let k = key.to_string();
        let mut i: usize = 0;
        while i < self.meta.len()
            invariant
                i <= self.meta@.len(),
                k@ == key@,
                self@ == old_m,
                old_m == old(self)@,
                old_m.wf(),
                forall|j: int| 0 <= j < i ==> (#[trigger] old_m.meta[j]).0 != key@,
            decreases self.meta.len() - i,
        {
            if self.meta[i].key == k {
                self.meta.set(i, MetaEntry { key: k.clone(), value: value.to_string() });
                let op = IndexOp::SetMeta { key: k, value: value.to_string() };
                proof {
                    assert(old_m.meta[i as int].0 == key@);
                    assert(self@.meta =~= old_m.meta.update(i as int, (key@, value@)));
                    let c = choose|c: int| 0 <= c < old_m.meta.len() && (#[trigger] old_m.meta[c]).0 == key@;
                    if c != i as int {
                        assert(old_m.meta[c].0 != old_m.meta[i as int].0);
                    }
                    assert(self@.games =~= old_m.games);
                    assert(self@.backups =~= old_m.backups);
                    assert(self@ == apply_op(old_m, op));
                    assert forall|a: int, b: int|
                        0 <= a < self@.meta.len() && 0 <= b < self@.meta.len() && a != b
                        implies (#[trigger] self@.meta[a]).0 != (#[trigger] self@.meta[b]).0 by {
                        assert(old_m.meta[a].0 != old_m.meta[b].0);
                    }
                    assert(self@.meta[i as int].0 == key@);
                    let d = choose|d: int| 0 <= d < self@.meta.len() && (#[trigger] self@.meta[d]).0 == key@;
                    if d != i as int {
                        assert(self@.meta[d].0 != self@.meta[i as int].0);
                    }
                }
                return op;
            }
            i = i + 1;
        }
        self.meta.push(MetaEntry { key: k.clone(), value: value.to_string() });
        let op = IndexOp::SetMeta { key: k, value: value.to_string() };
        proof {
            assert(self@.meta =~= old_m.meta.push((key@, value@)));
            assert(!exists|c: int| 0 <= c < old_m.meta.len() && (#[trigger] old_m.meta[c]).0 == key@);
            assert(self@.games =~= old_m.games);
            assert(self@.backups =~= old_m.backups);
            assert(self@ == apply_op(old_m, op));
            let n = old_m.meta.len() as int;
            assert forall|a: int, b: int|
                0 <= a < self@.meta.len() && 0 <= b < self@.meta.len() && a != b
                implies (#[trigger] self@.meta[a]).0 != (#[trigger] self@.meta[b]).0 by {
                if a < n && b < n {
                    assert(old_m.meta[a].0 != old_m.meta[b].0);
                }
            }
            assert(self@.meta[n].0 == key@);
            let d = choose|d: int| 0 <= d < self@.meta.len() && (#[trigger] self@.meta[d]).0 == key@;
            if d != n {
                assert(self@.meta[d].0 != self@.meta[n].0);
            }
        }
        op
    }
}


impl IntegrityIndex {
    /// The number of game rows.
    pub(crate) fn game_count(&self) -> (r: usize)
        ensures
            r == self@.games.len(),
    {
        self.games.len()
    }

    /// The external id of the game at `i`.
    pub(crate) fn game_external_id(&self, i: usize) -> (r: String)
        requires
            i < self@.games.len(),
        ensures
            r@ == self@.games[i as int].row.external_id,
    {
        self.games[i].game.external_id.clone()
    }

    /// The number of paths of the game at `i`.
    pub(crate) fn path_count(&self, i: usize) -> (r: usize)
        requires
            i < self@.games.len(),
        ensures
            r == self@.games[i as int].paths.len(),
    {
        self.games[i].paths.len()
    }

    /// Path `j` of the game at `i`.
    pub(crate) fn path_at(&self, i: usize, j: usize) -> (r: String)
        requires
            i < self@.games.len(),
            j < self@.games[i as int].paths.len(),
        ensures
            r@ == self@.games[i as int].paths[j as int],
    {
        self.games[i].paths[j].clone()
    }

    /// Whether the game at `i` already carries the entry's name, comment and
    /// retention hint.
    pub(crate) fn row_matches_entry(&self, i: usize, entry: &GameConfig) -> (r: bool)
        requires
            i < self@.games.len(),
        ensures
            r == row_matches(self@.games[i as int].row, *entry),
    {
        let row = &self.games[i].game;
        row.name == entry.name && same_opt(&row.comment, &entry.comment) && row.keep_versions == entry.keep_versions
    }
}


/// What `resolve_archive` returns on a given index: an archive of the path
/// from a backup of the game (of the given version, or else one with the
/// greatest timestamp); `BackupNotFound` when no backup of the game (of that
/// version) exists, and `PathNotFound` when such backups exist but none holds
/// the path.
pub open spec fn resolve_post(m: IndexModel, game_id: i64, version: Option<Seq<char>>, path: Seq<char>, r: Result<String, KaguyaError>) -> bool {
    &&& r is Ok <==> exists|b: int, f: int| #[trigger] m.archive_candidate(b, f, game_id, version, path)
    &&& r matches Ok(a) ==> exists|b: int, f: int| {
        &&& #[trigger] m.archive_candidate(b, f, game_id, version, path)
        &&& m.backups[b].files[f].archive_path == a@
        &&& version is None ==> forall|b2: int, f2: int| #[trigger] m.archive_candidate(b2, f2, game_id, version, path)
            ==> m.backups[b2].timestamp <= m.backups[b].timestamp
    }
    &&& r matches Err(e) ==> {
        &&& (exists|b: int| #[trigger] m.backup_selected(b, game_id, version))
            ==> (e matches KaguyaError::PathNotFound(s) && s@ == path)
        &&& (!exists|b: int| #[trigger] m.backup_selected(b, game_id, version)) ==> (e matches KaguyaError::BackupNotFound(s)
            && s@ == match version { Some(v) => v, None => path })
    }
}

impl IntegrityIndex {
    /// Records a backup run of a game and returns the new backup's id.
    pub fn insert_backup(&mut self, game_id: i64, version: &str, timestamp: i64) -> (r: Result<(i64, IndexOp), KaguyaError>)
        requires
            old(self)@.wf(),
        ensures
            final(self)@.wf(),
            r matches Ok((id, op)) ==> {
                &&& id == old(self)@.next_id
                &&& final(self)@ == apply_op(old(self)@, op)
                &&& final(self)@.backups == old(self)@.backups.push(BackupModel {
                    id,
                    game_id,
                    version: version@,
                    timestamp,
                    files: Seq::empty(),
                })
                &&& final(self)@.games == old(self)@.games
                &&& final(self)@.meta == old(self)@.meta
            },
            r matches Err(e) ==> final(self)@ == old(self)@ && old(self)@.next_id == i64::MAX && e is Database,
    {
        if self.next_id == i64::MAX {
            return Err(KaguyaError::Database("index id space exhausted".to_string()));
        }
        let ghost old_m = self@;
        let id = self.next_id;
        let row = Backup { id, game_id, version: version.to_string(), timestamp };
        let copy = Backup { id, game_id, version: version.to_string(), timestamp };
        self.backups.push(BackupSlot { backup: row, files: Vec::new() });
        self.next_id = id + 1;
        let op = IndexOp::InsertBackup { backup: copy };
        proof {
            let bm = BackupModel { id, game_id, version: version@, timestamp, files: Seq::empty() };
            assert(files_view(self.backups@.last().files@) =~= Seq::<FileView>::empty());
            assert(self@.backups =~= old_m.backups.push(bm));
            assert(self@.games =~= old_m.games);
            assert(self@.meta =~= old_m.meta);
            let n = old_m.backups.len() as int;
            assert forall|i: int, j: int|
                0 <= i < self@.backups.len() && 0 <= j < self@.backups.len() && i != j
                implies (#[trigger] self@.backups[i]).id != (#[trigger] self@.backups[j]).id by {
                if i < n && j < n {
                    assert(old_m.backups[i].id != old_m.backups[j].id);
                } else if i < n {
                    assert(old_m.backups[i].id < old_m.next_id);
                } else if j < n {
                    assert(old_m.backups[j].id < old_m.next_id);
                }
            }
            assert forall|i: int| 0 <= i < self@.backups.len() implies 1 <= (#[trigger] self@.backups[i]).id < self@.next_id by {
                if i < n {
                    assert(old_m.backups[i].id < old_m.next_id);
                }
            }
            assert forall|i: int| 0 <= i < self@.games.len() implies {
                &&& 1 <= (#[trigger] self@.games[i]).row.id < self@.next_id
                &&& seq_unique(self@.games[i].paths)
            } by {
                assert(old_m.games[i] == self@.games[i]);
            }
        }
        Ok((id, op))
    }

    /// Adds the archive files of a backup, all in one batch.
    pub fn insert_backup_files(&mut self, backup_id: i64, files: Vec<BackupFile>) -> (r: Result<IndexOp, KaguyaError>)
        requires
            old(self)@.wf(),
        ensures
            final(self)@.wf(),
            r is Ok <==> old(self)@.backup_pos(backup_id) is Some,
            r matches Ok(op) ==> {
                &&& final(self)@ == apply_op(old(self)@, op)
                &&& final(self)@.backups == old(self)@.backups.update(old(self)@.backup_pos(backup_id)->0, BackupModel {
                    files: old(self)@.backups[old(self)@.backup_pos(backup_id)->0].files + files_view(files@),
                    ..old(self)@.backups[old(self)@.backup_pos(backup_id)->0]
                })
            },
            r matches Err(e) ==> final(self)@ == old(self)@ && e matches KaguyaError::BackupNotFound(_),
            final(self)@.games == old(self)@.games,
            final(self)@.meta == old(self)@.meta,
    {
        let ghost old_m = self@;
        let mut b: usize = 0;
        while b < self.backups.len()
            invariant
                self@ == old_m,
                old_m == old(self)@,
                old_m.wf(),
                b <= self.backups@.len(),
                forall|j: int| 0 <= j < b ==> (#[trigger] old_m.backups[j]).id != backup_id,
            decreases self.backups.len() - b,
        {
            if self.backups[b].backup.id == backup_id {
                let ghost bm = old_m.backups[b as int];
                proof {
                    assert(old_m.backups[b as int].id == backup_id);
                    let c = choose|c: int| 0 <= c < old_m.backups.len() && (#[trigger] old_m.backups[c]).id == backup_id;
                    if c != b as int {
                        assert(old_m.backups[c].id != old_m.backups[b as int].id);
                    }
                }
                let slot = self.backups.remove(b);
                let mut all = slot.files;
                let mut extra = copy_files(&files);
                let copy = files;
                let ghost before_all = all@;
                all.append(&mut extra);
                self.backups.insert(b, BackupSlot { backup: slot.backup, files: all });
                let op = IndexOp::InsertBackupFiles { backup_id, files: copy };
                proof {
                    let nb = BackupModel { files: bm.files + files_view(copy@), ..bm };
                    assert(files_view(all@) =~= files_view(before_all) + files_view(copy@));
                    assert(self@.backups =~= old_m.backups.update(b as int, nb));
                    assert(self@.games =~= old_m.games);
                    assert(self@.meta =~= old_m.meta);
                    assert forall|i: int, j: int|
                        0 <= i < self@.backups.len() && 0 <= j < self@.backups.len() && i != j
                        implies (#[trigger] self@.backups[i]).id != (#[trigger] self@.backups[j]).id by {
                        assert(old_m.backups[i].id != old_m.backups[j].id);
                    }
                    assert forall|i: int| 0 <= i < self@.backups.len() implies 1 <= (#[trigger] self@.backups[i]).id < self@.next_id by {
                        assert(old_m.backups[i].id < old_m.next_id);
                    }
                }
                return Ok(op);
            }
            b = b + 1;
        }
        proof {
            if exists|c: int| 0 <= c < old_m.backups.len() && (#[trigger] old_m.backups[c]).id == backup_id {
                let c = choose|c: int| 0 <= c < old_m.backups.len() && (#[trigger] old_m.backups[c]).id == backup_id;
                assert(old_m.backups[c].id != backup_id);
            }
        }
        Err(KaguyaError::BackupNotFound(String::new()))
    }
}


impl IntegrityIndex {
    fn version_matches(&self, b: usize, version: &Option<String>) -> (r: bool)
        requires
            b < self@.backups.len(),
        ensures
            r == (opt_view(*version) matches Some(v) ==> self@.backups[b as int].version == v),
    {
        match version {
            Some(v) => self.backups[b].backup.version == *v,
            None => true,
        }
    }

    /// The archive of `original_path` for a game: from the backup with the
    /// given version, or when none is given from the backup with the greatest
    /// timestamp that holds the path.
    pub fn resolve_archive(&self, game_id: i64, version: Option<&str>, original_path: &str) -> (r: Result<String, KaguyaError>)
        requires
            self@.wf(),
        ensures
            resolve_post(self@, game_id, crate::config::opt_ref_view(version), original_path@, r),
    {
        let ghost m = self@;
        let ghost ver = crate::config::opt_ref_view(version);
        let want_path = original_path.to_string();
        let want_version: Option<String> = match version {
            Some(v) => Some(v.to_string()),
            None => None,
        };
        assert(opt_view(want_version) == ver);
        let mut any_backup = false;
        let mut best: Option<(usize, usize)> = None;
        let mut b: usize = 0;
        while b < self.backups.len()
            invariant
                m == self@,
                opt_view(want_version) == ver,
                ver == crate::config::opt_ref_view(version),
                want_path@ == original_path@,
                b <= m.backups.len(),
                any_backup <==> exists|b2: int| 0 <= b2 < b && #[trigger] m.backup_selected(b2, game_id, ver),
                best is None <==> !exists|b2: int, f2: int| 0 <= b2 < b && #[trigger] m.archive_candidate(b2, f2, game_id, ver, original_path@),
                best matches Some((bb, ff)) ==> {
                    &&& bb < b
                    &&& m.archive_candidate(bb as int, ff as int, game_id, ver, original_path@)
                    &&& ver is None ==> forall|b2: int, f2: int| 0 <= b2 < b && #[trigger] m.archive_candidate(b2, f2, game_id, ver, original_path@)
                        ==> m.backups[b2].timestamp <= m.backups[bb as int].timestamp
                },
            decreases m.backups.len() - b,
        {
            if self.backups[b].backup.game_id == game_id && self.version_matches(b, &want_version) {
                any_backup = true;
                let files = &self.backups[b].files;
                let mut f: usize = 0;
                while f < files.len()
                    invariant
                        m == self@,
                        ver == crate::config::opt_ref_view(version),
                        b < m.backups.len(),
                        files@ == self.backups@[b as int].files@,
                        m.backup_selected(b as int, game_id, ver),
                        want_path@ == original_path@,
                        f <= files@.len(),
                        best is None <==> !exists|b2: int, f2: int| ((0 <= b2 < b) || (b2 == b && 0 <= f2 < f))
                            && #[trigger] m.archive_candidate(b2, f2, game_id, ver, original_path@),
                        best matches Some((bb, ff)) ==> {
                            &&& bb <= b
                            &&& m.archive_candidate(bb as int, ff as int, game_id, ver, original_path@)
                            &&& ver is None ==> forall|b2: int, f2: int| ((0 <= b2 < b) || (b2 == b && 0 <= f2 < f))
                                && #[trigger] m.archive_candidate(b2, f2, game_id, ver, original_path@)
                                ==> m.backups[b2].timestamp <= m.backups[bb as int].timestamp
                        },
                    decreases files@.len() - f,
                {
                    assert(m.backups[b as int].files[f as int] == files@[f as int]@);
                    let ghost prev = best;
                    if files[f].original_path == want_path {
                        assert(m.archive_candidate(b as int, f as int, game_id, ver, original_path@));
                        let replace = match best {
                            None => true,
                            Some((bb, _)) => {
                                assert(m.backups[bb as int].timestamp == self.backups@[bb as int].backup.timestamp);
                                version.is_none() && self.backups[bb].backup.timestamp < self.backups[b].backup.timestamp
                            },
                        };
                        if replace {
                            best = Some((b, f));
                        }
                        proof {
                            if ver is None {
                                if let Some((bb, ff)) = best {
                                    assert forall|b2: int, f2: int| ((0 <= b2 < b) || (b2 == b && 0 <= f2 < f + 1))
                                        && #[trigger] m.archive_candidate(b2, f2, game_id, ver, original_path@)
                                        implies m.backups[b2].timestamp <= m.backups[bb as int].timestamp by {
                                        assert(m.backups[b as int].timestamp == self.backups@[b as int].backup.timestamp);
                                        if let Some((pb, pf)) = prev {
                                            assert(m.backups[pb as int].timestamp == self.backups@[pb as int].backup.timestamp);
                                            if !(b2 == b && f2 == f) {
                                                assert(m.backups[b2].timestamp <= m.backups[pb as int].timestamp);
                                            }
                                        } else {
                                            if !(b2 == b && f2 == f) {
                                                assert(!m.archive_candidate(b2, f2, game_id, ver, original_path@));
                                            }
                                        }
                                    }
                                }
                            }
                        }
                    } else {
                        assert(!m.archive_candidate(b as int, f as int, game_id, ver, original_path@));
                    }
                    proof {
                        if best is None {
                            assert forall|b2: int, f2: int| ((0 <= b2 < b) || (b2 == b && 0 <= f2 < f + 1))
                                implies !#[trigger] m.archive_candidate(b2, f2, game_id, ver, original_path@) by {
                                if !(b2 == b && f2 == f) {
                                    assert(!((0 <= b2 < b) || (b2 == b && 0 <= f2 < f)) || !m.archive_candidate(b2, f2, game_id, ver, original_path@));
                                }
                            }
                        }
                    }
                    f = f + 1;
                }
                assert forall|b2: int, f2: int| 0 <= b2 < b + 1 && #[trigger] m.archive_candidate(b2, f2, game_id, ver, original_path@)
                    implies (b2 < b) || (b2 == b && 0 <= f2 < f) by {}
            } else {
                assert(!m.backup_selected(b as int, game_id, ver));
            }
            b = b + 1;
        }
        match best {
            Some((bb, ff)) => Ok(self.backups[bb].files[ff].archive_path.clone()),
            None => {
                if any_backup {
                    Err(KaguyaError::PathNotFound(want_path))
                } else {
                    match want_version {
                        Some(v) => Err(KaguyaError::BackupNotFound(v)),
                        None => Err(KaguyaError::BackupNotFound(want_path)),
                    }
                }
            },
        }
    }
}

/// A backup of `game_id` at `version` whose files include one for `path`
/// resolves, at that version, to that file's archive: what a backup records
/// is what a restore of the same game, version and path finds. The index
/// holds no earlier backup of the game at that version (every run gets a new
/// version), and the run archived each path once.
pub proof fn lemma_backup_then_resolve(
    m: IndexModel,
    id: i64,
    game_id: i64,
    version: Seq<char>,
    timestamp: i64,
    files: Seq<FileView>,
    k: int,
    r: Result<String, KaguyaError>,
)
    requires
        !exists|b: int| #[trigger] m.backup_selected(b, game_id, Some(version)),
        0 <= k < files.len(),
        forall|i: int, j: int| 0 <= i < files.len() && 0 <= j < files.len() && i != j
            ==> (#[trigger] files[i]).original_path != (#[trigger] files[j]).original_path,
        resolve_post(
            IndexModel {
                backups: m.backups.push(BackupModel { id, game_id, version, timestamp, files }),
                ..m
            },
            game_id,
            Some(version),
            files[k].original_path,
            r,
        ),
    ensures
        r matches Ok(a) && a@ == files[k].archive_path,
{
    let m1 = IndexModel { backups: m.backups.push(BackupModel { id, game_id, version, timestamp, files }), ..m };
    let n = m.backups.len() as int;
    let path = files[k].original_path;
    assert(m1.archive_candidate(n, k, game_id, Some(version), path));
    let a = r->Ok_0;
    let (b, f) = choose|b: int, f: int| {
        &&& #[trigger] m1.archive_candidate(b, f, game_id, Some(version), path)
        &&& m1.backups[b].files[f].archive_path == a@
        &&& None::<Seq<char>> is None ==> true
    };
    if b < n {
        assert(m.backup_selected(b, game_id, Some(version)));
    }
    assert(b == n);
    if f != k {
        assert(files[f].original_path != files[k].original_path);
    }
}


impl IntegrityIndex {
    /// Adds a stored game row with its stored paths, as read back from the
    /// persistent store. A row whose external id or id is already present,
    /// whose id is not positive or is the largest id, or whose paths repeat,
    /// is refused with `Database`, and the index is left unchanged.
    pub fn load_game(&mut self, row: IndexedGame, paths: Vec<String>) -> (r: Result<(), KaguyaError>)
        requires
            old(self)@.wf(),
        ensures
            final(self)@.wf(),
            r is Ok <==> {
                &&& !old(self)@.game_ids().contains(row.external_id@)
                &&& forall|i: int| 0 <= i < old(self)@.games.len() ==> (#[trigger] old(self)@.games[i]).row.id != row.id
                &&& 1 <= row.id < i64::MAX
                &&& seq_unique(paths.deep_view())
            },
            r is Ok ==> final(self)@.games == old(self)@.games.push(GameModel { row: row@, paths: paths.deep_view() })
                && final(self)@.backups == old(self)@.backups && final(self)@.meta == old(self)@.meta,
            r matches Err(e) ==> final(self)@ == old(self)@ && e is Database,
    {
        let ghost old_m = self@;
        if row.id < 1 || row.id == i64::MAX {
            return Err(KaguyaError::Database("stored game id out of range".to_string()));
        }
        if self.game_index(row.external_id.as_str()).is_some() {
            return Err(KaguyaError::Database("stored external id repeated".to_string()));
        }
        let mut i: usize = 0;
        while i < self.games.len()
            invariant
                self@ == old_m,
                old_m.wf(),
                i <= old_m.games.len(),
                forall|k: int| 0 <= k < i ==> (#[trigger] old_m.games[k]).row.id != row.id,
            decreases self.games.len() - i,
        {
            if self.games[i].game.id == row.id {
                assert(old_m.games[i as int].row.id == row.id);
                return Err(KaguyaError::Database("stored game id repeated".to_string()));
            }
            i = i + 1;
        }
        let mut a: usize = 0;
        while a < paths.len()
            invariant
                self@ == old_m,
                old_m.wf(),
                a <= paths@.len(),
                forall|x: int, y: int| 0 <= x < a && 0 <= y < paths@.len() && x != y
                    ==> paths.deep_view()[x] != paths.deep_view()[y],
            decreases paths.len() - a,
        {
            let mut b: usize = 0;
            while b < paths.len()
                invariant
                    self@ == old_m,
                    old_m.wf(),
                    a < paths@.len(),
                    b <= paths@.len(),
                    forall|x: int, y: int| 0 <= x < a && 0 <= y < paths@.len() && x != y
                        ==> paths.deep_view()[x] != paths.deep_view()[y],
                    forall|y: int| 0 <= y < b && y != a ==> paths.deep_view()[a as int] != paths.deep_view()[y],
                decreases paths.len() - b,
            {
                if b != a && paths[a] == paths[b] {
                    assert(paths.deep_view()[a as int] == paths.deep_view()[b as int]);
                    return Err(KaguyaError::Database("stored path repeated".to_string()));
                }
                b = b + 1;
            }
            a = a + 1;
        }
        let ghost pv = paths.deep_view();
        let id = row.id;
        self.games.push(GameSlot { game: row, paths });
        if self.next_id <= id {
            self.next_id = id + 1;
        }
        proof {
            let new_m = self@;
            let g = GameModel { row: self.games@.last().game@, paths: pv };
            assert(new_m.games =~= old_m.games.push(g));
            assert(new_m.backups =~= old_m.backups);
            assert(new_m.meta =~= old_m.meta);
            let n = old_m.games.len() as int;
            assert forall|i: int, j: int|
                0 <= i < new_m.games.len() && 0 <= j < new_m.games.len() && i != j
                implies (#[trigger] new_m.games[i]).row.external_id != (#[trigger] new_m.games[j]).row.external_id
                    && new_m.games[i].row.id != new_m.games[j].row.id by {
                if i == n {
                    assert(new_m.games[j] == old_m.games[j]);
                    assert(old_m.game_ids().contains(old_m.games[j].row.external_id));
                    assert(old_m.games[j].row.id != id);
                } else if j == n {
                    assert(new_m.games[i] == old_m.games[i]);
                    assert(old_m.game_ids().contains(old_m.games[i].row.external_id));
                    assert(old_m.games[i].row.id != id);
                } else {
                    assert(old_m.games[i].row.external_id != old_m.games[j].row.external_id);
                }
            }
            assert forall|i: int| 0 <= i < new_m.games.len() implies {
                &&& 1 <= (#[trigger] new_m.games[i]).row.id < new_m.next_id
                &&& seq_unique(new_m.games[i].paths)
            } by {
                if i < n {
                    assert(old_m.games[i] == new_m.games[i]);
                    assert(old_m.games[i].row.id < old_m.next_id);
                }
            }
            assert forall|i: int| 0 <= i < new_m.backups.len() implies 1 <= (#[trigger] new_m.backups[i]).id < new_m.next_id by {
                assert(old_m.backups[i].id < old_m.next_id);
            }
        }
        Ok(())
    }

    /// Adds a stored backup row with its stored files. A backup whose id is
    /// already present, is not positive, or is the largest id is refused
    /// with `Database`, and the index is left unchanged.
    pub fn load_backup(&mut self, backup: Backup, files: Vec<BackupFile>) -> (r: Result<(), KaguyaError>)
        requires
            old(self)@.wf(),
        ensures
            final(self)@.wf(),
            r is Ok <==> {
                &&& old(self)@.backup_pos(backup.id) is None
                &&& 1 <= backup.id < i64::MAX
            },
            r is Ok ==> final(self)@.backups == old(self)@.backups.push(BackupModel {
                id: backup.id,
                game_id: backup.game_id,
                version: backup.version@,
                timestamp: backup.timestamp,
                files: files_view(files@),
            }) && final(self)@.games == old(self)@.games && final(self)@.meta == old(self)@.meta,
            r matches Err(e) ==> final(self)@ == old(self)@ && e is Database,
    {
        let ghost old_m = self@;
        if backup.id < 1 || backup.id == i64::MAX {
            return Err(KaguyaError::Database("stored backup id out of range".to_string()));
        }
        let mut i: usize = 0;
        while i < self.backups.len()
            invariant
                self@ == old_m,
                old_m.wf(),
                i <= old_m.backups.len(),
                forall|k: int| 0 <= k < i ==> (#[trigger] old_m.backups[k]).id != backup.id,
            decreases self.backups.len() - i,
        {
            if self.backups[i].backup.id == backup.id {
                proof {
                    assert(old_m.backups[i as int].id == backup.id);
                }
                return Err(KaguyaError::Database("stored backup id repeated".to_string()));
            }
            i = i + 1;
        }
        proof {
            if exists|k: int| 0 <= k < old_m.backups.len() && (#[trigger] old_m.backups[k]).id == backup.id {
                let k = choose|k: int| 0 <= k < old_m.backups.len() && (#[trigger] old_m.backups[k]).id == backup.id;
                assert(old_m.backups[k].id != backup.id);
            }
        }
        let id = backup.id;
        let ghost bm = BackupModel {
            id: backup.id,
            game_id: backup.game_id,
            version: backup.version@,
            timestamp: backup.timestamp,
            files: files_view(files@),
        };
        self.backups.push(BackupSlot { backup, files });
        if self.next_id <= id {
            self.next_id = id + 1;
        }
        proof {
            let new_m = self@;
            assert(new_m.backups =~= old_m.backups.push(bm));
            assert(new_m.games =~= old_m.games);
            assert(new_m.meta =~= old_m.meta);
            let n = old_m.backups.len() as int;
            assert forall|i: int, j: int|
                0 <= i < new_m.backups.len() && 0 <= j < new_m.backups.len() && i != j
                implies (#[trigger] new_m.backups[i]).id != (#[trigger] new_m.backups[j]).id by {
                if i < n && j < n {
                    assert(old_m.backups[i].id != old_m.backups[j].id);
                }
            }
            assert forall|i: int| 0 <= i < new_m.backups.len() implies 1 <= (#[trigger] new_m.backups[i]).id < new_m.next_id by {
                if i < n {
                    assert(old_m.backups[i].id < old_m.next_id);
                }
            }
            assert forall|i: int| 0 <= i < new_m.games.len() implies {
                &&& 1 <= (#[trigger] new_m.games[i]).row.id < new_m.next_id
                &&& seq_unique(new_m.games[i].paths)
            } by {
                assert(old_m.games[i] == new_m.games[i]);
                assert(old_m.games[i].row.id < old_m.next_id);
            }
        }
        Ok(())
    }
}

} // verus!
