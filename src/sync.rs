//! Reconciles the relational index with the declarative config, gated by a
//! stored content hash of the config so that an unchanged config is a no-op.
use crate::config::{GameConfig, VaultConfig};
use crate::error::KaguyaError;
use crate::index::{apply_ops, lemma_apply_ops_concat, lemma_apply_ops_push, row_matches, IndexModel, IndexOp, IntegrityIndex};
use vstd::prelude::*;

verus! {

/// Meta key under which the hash of the last synced config is stored.
pub const KEY_VAULT_CONFIG_HASH: &'static str = "vault_config_hash";

/// Meta key that records the schema version.
pub const KEY_SCHEMA_VERSION: &'static str = "schema_version";

/// The ids of the config's games.
pub open spec fn config_ids(games: Seq<GameConfig>) -> Set<Seq<char>> {
    Set::new(|e: Seq<char>| exists|k: int| 0 <= k < games.len() && (#[trigger] games[k]).id@ == e)
}

/// The (game id, path) pairs that the config declares.
pub open spec fn config_pairs(games: Seq<GameConfig>) -> Set<(Seq<char>, Seq<char>)> {
    Set::new(|pr: (Seq<char>, Seq<char>)| exists|k: int| 0 <= k < games.len()
        && (#[trigger] games[k]).id@ == pr.0 && games[k].paths.deep_view().contains(pr.1))
}

/// Whether some entry with the row's id carries the row's fields.
pub open spec fn row_from_config(games: Seq<GameConfig>, row: crate::index::GameRowView) -> bool {
    exists|k: int| 0 <= k < games.len() && (#[trigger] games[k]).id@ == row.external_id && row_matches(row, games[k])
}

/// Whether a row already carries the fields of every config entry with its
/// external id, so that reconciling has nothing to rewrite in it.
pub open spec fn matches_all_entries(games: Seq<GameConfig>, row: crate::index::GameRowView) -> bool {
    forall|k: int| 0 <= k < games.len() && (#[trigger] games[k]).id@ == row.external_id ==> row_matches(row, games[k])
}

/// A game row that was indexed before a reconciliation is still there
/// afterwards: same internal id, external id and creation time, and exactly
/// the same row when it already matched every config entry with its id.
pub open spec fn game_kept(games: Seq<GameConfig>, row: crate::index::GameRowView, new: IndexModel) -> bool {
    exists|j: int| 0 <= j < new.games.len() && {
        &&& (#[trigger] new.games[j]).row.id == row.id
        &&& new.games[j].row.external_id == row.external_id
        &&& new.games[j].row.created_at == row.created_at
        &&& matches_all_entries(games, row) ==> new.games[j].row == row
    }
}

/// Whether a sync must reconcile: it is forced, or the stored hash differs
/// from the config's current hash.
pub open spec fn needs_sync(m: IndexModel, hash: Seq<char>, force: bool) -> bool {
    force || m.meta_get(KEY_VAULT_CONFIG_HASH@) != Some(hash)
}

/// The index matches the config: exactly its ids, exactly its pairs, and
/// each row carries the fields of an entry with its id.
pub open spec fn reconciled(m: IndexModel, games: Seq<GameConfig>) -> bool {
    &&& m.game_ids() == config_ids(games)
    &&& m.path_pairs() == config_pairs(games)
    &&& forall|i: int| 0 <= i < m.games.len() ==> row_from_config(games, (#[trigger] m.games[i]).row)
}

/// What `sync` guarantees, from the index before (`old`) to the index after
/// (`new`) and its result `r`.
pub open spec fn sync_post(
    old: IndexModel,
    new: IndexModel,
    r: Result<Seq<IndexOp>, KaguyaError>,
    games: Seq<GameConfig>,
    hash: Seq<char>,
    force: bool,
) -> bool {
    &&& new.wf()
    &&& !needs_sync(old, hash, force) ==> r == Ok::<Seq<IndexOp>, KaguyaError>(Seq::empty()) && new == old
    &&& r matches Ok(ops) ==> new == apply_ops(old, ops)
    &&& (needs_sync(old, hash, force) && r is Ok) ==> {
        &&& reconciled(new, games)
        &&& forall|i: int| 0 <= i < old.games.len() && config_ids(games).contains((#[trigger] old.games[i]).row.external_id)
            ==> game_kept(games, old.games[i].row, new)
        &&& new.meta_get(KEY_VAULT_CONFIG_HASH@) == Some(hash)
        &&& new.backups == old.backups
    }
    &&& r matches Err(e) ==> e is Database && new.meta == old.meta
    &&& old.next_id + games.len() < i64::MAX ==> r is Ok
}

/// The external id that a `DeleteGame` write removes.
pub open spec fn deleted_game(op: IndexOp) -> Seq<char> {
    match op {
        IndexOp::DeleteGame { external_id } => external_id@,
        _ => Seq::empty(),
    }
}

/// The (game, path) pair that a `DeletePath` write removes.
pub open spec fn deleted_pair(op: IndexOp) -> (Seq<char>, Seq<char>) {
    match op {
        IndexOp::DeletePath { external_id, path } => (external_id@, path@),
        _ => (Seq::empty(), Seq::empty()),
    }
}

/// Whether the config declares a game with this id.
pub fn config_has_id(games: &Vec<GameConfig>, id: &String) -> (r: bool)
    ensures
        r == config_ids(games@).contains(id@),
{
    let mut k: usize = 0;
    while k < games.len()
        invariant
            k <= games@.len(),
            forall|j: int| 0 <= j < k ==> (#[trigger] games@[j]).id@ != id@,
        decreases games.len() - k,
    {
        if games[k].id == *id {
            assert(games@[k as int].id@ == id@);
            return true;
        }
        k = k + 1;
    }
    proof {
        if config_ids(games@).contains(id@) {
            let j = choose|j: int| 0 <= j < games@.len() && (#[trigger] games@[j]).id@ == id@;
            assert(games@[j].id@ != id@);
        }
    }
    false
}

/// Whether the config declares this path for a game with this id.
pub fn config_has_pair(games: &Vec<GameConfig>, id: &String, path: &String) -> (r: bool)
    ensures
        r == config_pairs(games@).contains((id@, path@)),
{
    let mut k: usize = 0;
    while k < games.len()
        invariant
            k <= games@.len(),
            forall|j: int| 0 <= j < k ==> !((#[trigger] games@[j]).id@ == id@ && games@[j].paths.deep_view().contains(path@)),
        decreases games.len() - k,
    {
        if games[k].id == *id && crate::config::contains_path(&games[k].paths, path) {
            assert(games@[k as int].id@ == id@);
            return true;
        }
        k = k + 1;
    }
    proof {
        if config_pairs(games@).contains((id@, path@)) {
            let j = choose|j: int| 0 <= j < games@.len()
                && (#[trigger] games@[j]).id@ == id@ && games@[j].paths.deep_view().contains(path@);
            assert(!(games@[j].id@ == id@ && games@[j].paths.deep_view().contains(path@)));
        }
    }
    false
}

/// Upserts a game row for each config entry (insert when absent; update only
/// when the name, comment or retention hint differ), then inserts the entry's
/// missing paths in one batch. Nothing is removed here.
pub fn upsert_games_from_config(index: &mut IntegrityIndex, config: &VaultConfig, now: i64) -> (r: Result<Vec<IndexOp>, KaguyaError>)
    requires
        old(index)@.wf(),
    ensures
        final(index)@.wf(),
        final(index)@.meta == old(index)@.meta,
        final(index)@.backups == old(index)@.backups,
        r matches Ok(ops) ==> final(index)@ == apply_ops(old(index)@, ops@),
        r matches Ok(_) ==> {
            &&& config_ids(config.games@).subset_of(final(index)@.game_ids())
            &&& config_pairs(config.games@).subset_of(final(index)@.path_pairs())
            &&& forall|i: int| 0 <= i < final(index)@.games.len()
                && config_ids(config.games@).contains((#[trigger] final(index)@.games[i]).row.external_id)
                ==> row_from_config(config.games@, final(index)@.games[i].row)
            &&& final(index)@.games.len() >= old(index)@.games.len()
            &&& forall|i: int| 0 <= i < old(index)@.games.len() ==> {
                &&& (#[trigger] final(index)@.games[i]).row.id == old(index)@.games[i].row.id
                &&& final(index)@.games[i].row.external_id == old(index)@.games[i].row.external_id
                &&& final(index)@.games[i].row.created_at == old(index)@.games[i].row.created_at
                &&& matches_all_entries(config.games@, old(index)@.games[i].row)
                    ==> final(index)@.games[i].row == old(index)@.games[i].row
            }
        },
        r matches Err(e) ==> e is Database,
        old(index)@.next_id + config.games@.len() < i64::MAX ==> r is Ok,
{
    let ghost m0 = index@;
    let ghost cfg = config.games@;
    let mut ops: Vec<IndexOp> = Vec::new();
    let mut k: usize = 0;
    while k < config.games.len()
        invariant
            k <= cfg.len(),
            cfg == config.games@,
            m0 == old(index)@,
            index@.wf(),
            index@ == apply_ops(m0, ops@),
            index@.meta == m0.meta,
            index@.backups == m0.backups,
            index@.next_id <= m0.next_id + k,
            config_ids(cfg.take(k as int)).subset_of(index@.game_ids()),
            config_pairs(cfg.take(k as int)).subset_of(index@.path_pairs()),
            forall|i: int| 0 <= i < index@.games.len()
                && config_ids(cfg.take(k as int)).contains((#[trigger] index@.games[i]).row.external_id)
                ==> row_from_config(cfg.take(k as int), index@.games[i].row),
            m0.next_id + cfg.len() < i64::MAX ==> index@.next_id < i64::MAX - (cfg.len() - k),
            index@.games.len() >= m0.games.len(),
            forall|i: int| 0 <= i < m0.games.len() ==> {
                &&& (#[trigger] index@.games[i]).row.id == m0.games[i].row.id
                &&& index@.games[i].row.external_id == m0.games[i].row.external_id
                &&& index@.games[i].row.created_at == m0.games[i].row.created_at
                &&& matches_all_entries(cfg.take(k as int), m0.games[i].row) ==> index@.games[i].row == m0.games[i].row
            },
        decreases cfg.len() - k,
    {
        let entry = &config.games[k];
        let ghost before = index@;
        let ghost pre = cfg.take(k as int);
        let ghost post = cfg.take(k + 1);
        assert(post =~= pre.push(*entry));
        proof {
            assert forall|i: int| 0 <= i < m0.games.len() && matches_all_entries(post, m0.games[i].row)
                implies matches_all_entries(pre, m0.games[i].row) by {
                assert forall|q: int| 0 <= q < pre.len() && (#[trigger] pre[q]).id@ == m0.games[i].row.external_id
                    implies row_matches(m0.games[i].row, pre[q]) by {
                    assert(post[q] == pre[q]);
                }
            }
        }
        let pos = match index.game_index(entry.id.as_str()) {
            Some(i) => {
                proof {
                    if (i as int) < m0.games.len() && matches_all_entries(post, m0.games[i as int].row) {
                        assert(post[k as int] == *entry);
                        assert(row_matches(m0.games[i as int].row, post[k as int]));
                    }
                }
                if !index.row_matches_entry(i, entry) {
                    let op = index.update_game_at(i, entry, now);
                    proof {
                        lemma_apply_ops_push(m0, ops@, op);
                    }
                    ops.push(op);
                }
                i
            },
            None => {
                let n = index.game_count();
                match index.insert_game(entry, now) {
                    Ok(op) => {
                        proof {
                            lemma_apply_ops_push(m0, ops@, op);
                        }
                        ops.push(op);
                    },
                    Err(e) => {
                        return Err(e);
                    },
                }
                n
            },
        };
        let ghost mid = index@;
        assert(mid.games[pos as int].row.external_id == entry.id@);
        assert(row_matches(mid.games[pos as int].row, *entry));
        match index.insert_missing_paths(pos, &entry.paths) {
            Some(op) => {
                proof {
                    lemma_apply_ops_push(m0, ops@, op);
                }
                ops.push(op);
            },
            None => {},
        }
        proof {
            let after = index@;
            crate::config::lemma_merge_paths(mid.games[pos as int].paths, entry.paths.deep_view());
            // ids: before's ids plus the entry's id
            assert forall|e: Seq<char>| config_ids(post).contains(e) implies after.game_ids().contains(e) by {
                let j = choose|j: int| 0 <= j < post.len() && (#[trigger] post[j]).id@ == e;
                if j < k {
                    assert(pre[j].id@ == e);
                    assert(config_ids(pre).contains(e));
                    assert(before.game_ids().contains(e));
                    assert(mid.game_ids().contains(e));
                } else {
                    assert(mid.games[pos as int].row.external_id == e);
                    assert(mid.game_ids().contains(e));
                }
            }
            assert forall|pr: (Seq<char>, Seq<char>)| config_pairs(post).contains(pr) implies after.path_pairs().contains(pr) by {
                let j = choose|j: int| 0 <= j < post.len()
                    && (#[trigger] post[j]).id@ == pr.0 && post[j].paths.deep_view().contains(pr.1);
                if j < k {
                    assert(pre[j].id@ == pr.0);
                    assert(config_pairs(pre).contains(pr));
                    assert(before.path_pairs().contains(pr));
                    let q = choose|q: int| 0 <= q < before.games.len()
                        && (#[trigger] before.games[q]).row.external_id == pr.0 && before.games[q].paths.contains(pr.1);
                    if q == pos as int {
                        assert(mid.games[q].paths.contains(pr.1));
                    } else if q < before.games.len() {
                        assert(mid.games[q] == before.games[q]);
                    }
                    assert(mid.path_pairs().contains(pr));
                }
            }
            assert forall|i: int| 0 <= i < after.games.len()
                && config_ids(post).contains((#[trigger] after.games[i]).row.external_id)
                implies row_from_config(post, after.games[i].row) by {
                if i == pos as int {
                    assert(post[k as int] == *entry);
                    assert(after.games[i].row == mid.games[i].row);
                } else {
                    assert(after.games[i] == mid.games[i]);
                    assert(i < before.games.len());
                    assert(mid.games[i] == before.games[i]);
                    let e = after.games[i].row.external_id;
                    if e == entry.id@ {
                        before.lemma_game_pos(i);
                        if before.game_pos(e) is Some {
                            mid.lemma_ext_unique(i, pos as int);
                        }
                    }
                    let j = choose|j: int| 0 <= j < post.len() && (#[trigger] post[j]).id@ == e;
                    if j == k {
                        assert(mid.games[pos as int].row.external_id == e);
                        mid.lemma_ext_unique(i, pos as int);
                    }
                    assert(pre[j].id@ == e);
                    assert(config_ids(pre).contains(e));
                    let j2 = choose|j2: int| 0 <= j2 < pre.len() && (#[trigger] pre[j2]).id@ == before.games[i].row.external_id
                        && row_matches(before.games[i].row, pre[j2]);
                    assert(post[j2] == pre[j2]);
                }
            }
            assert forall|i: int| 0 <= i < m0.games.len() implies {
                &&& (#[trigger] after.games[i]).row.id == m0.games[i].row.id
                &&& after.games[i].row.external_id == m0.games[i].row.external_id
                &&& after.games[i].row.created_at == m0.games[i].row.created_at
                &&& matches_all_entries(post, m0.games[i].row) ==> after.games[i].row == m0.games[i].row
            } by {
                assert(after.games[i].row == mid.games[i].row);
                if i != pos as int {
                    assert(mid.games[i] == before.games[i]);
                }
            }
        }
        k = k + 1;
    }
    assert(cfg.take(cfg.len() as int) =~= cfg);
    Ok(ops)
}


/// Deletes every game row whose external id the config does not declare,
/// together with its paths.
pub fn prune_obsolete_games(index: &mut IntegrityIndex, config: &VaultConfig) -> (ops: Vec<IndexOp>)
    requires
        old(index)@.wf(),
    ensures
        final(index)@.wf(),
        final(index)@ == apply_ops(old(index)@, ops@),
        final(index)@.meta == old(index)@.meta,
        final(index)@.backups == old(index)@.backups,
        final(index)@.game_ids() == old(index)@.game_ids().intersect(config_ids(config.games@)),
        forall|pr: (Seq<char>, Seq<char>)| #[trigger] final(index)@.path_pairs().contains(pr)
            <==> (old(index)@.path_pairs().contains(pr) && config_ids(config.games@).contains(pr.0)),
        forall|i: int| 0 <= i < final(index)@.games.len() ==> old(index)@.games.contains(#[trigger] final(index)@.games[i]),
        forall|i: int| 0 <= i < old(index)@.games.len() && config_ids(config.games@).contains(
            (#[trigger] old(index)@.games[i]).row.external_id) ==> final(index)@.games.contains(old(index)@.games[i]),
        forall|k: int| 0 <= k < ops@.len() ==> (#[trigger] ops@[k]) is DeleteGame
            && old(index)@.game_ids().contains(deleted_game(ops@[k]))
            && !config_ids(config.games@).contains(deleted_game(ops@[k])),
        forall|k1: int, k2: int| 0 <= k1 < ops@.len() && 0 <= k2 < ops@.len() && k1 != k2
            ==> deleted_game(#[trigger] ops@[k1]) != deleted_game(#[trigger] ops@[k2]),
        forall|e: Seq<char>| old(index)@.game_ids().contains(e) && !config_ids(config.games@).contains(e)
            ==> exists|k: int| 0 <= k < ops@.len() && deleted_game(#[trigger] ops@[k]) == e,
{
    let ghost m0 = index@;
    let ghost ids = config_ids(config.games@);
    let mut ops: Vec<IndexOp> = Vec::new();
    assert(apply_ops(m0, ops@) == m0);
    assert forall|a: int| 0 <= a < index@.games.len() implies m0.games.contains(#[trigger] index@.games[a]) by {
        assert(index@.games[a] == m0.games[a]);
    }
    let mut i: usize = 0;
    while i < index.game_count()
        invariant
            m0 == old(index)@,
            index@.wf(),
            index@ == apply_ops(m0, ops@),
            index@.meta == m0.meta,
            index@.backups == m0.backups,
            i <= index@.games.len(),
            forall|j: int| 0 <= j < i ==> ids.contains((#[trigger] index@.games[j]).row.external_id),
            index@.game_ids().subset_of(m0.game_ids()),
            m0.game_ids().intersect(ids).subset_of(index@.game_ids()),
            forall|pr: (Seq<char>, Seq<char>)| #[trigger] index@.path_pairs().contains(pr) ==> m0.path_pairs().contains(pr),
            forall|pr: (Seq<char>, Seq<char>)| m0.path_pairs().contains(pr) && ids.contains(pr.0)
                ==> #[trigger] index@.path_pairs().contains(pr),
            forall|a: int| 0 <= a < index@.games.len() ==> m0.games.contains(#[trigger] index@.games[a]),
            ids == config_ids(config.games@),
            forall|a: int| 0 <= a < m0.games.len() && ids.contains((#[trigger] m0.games[a]).row.external_id)
                ==> index@.games.contains(m0.games[a]),
            forall|k: int| 0 <= k < ops@.len() ==> (#[trigger] ops@[k]) is DeleteGame
                && m0.game_ids().contains(deleted_game(ops@[k]))
                && !ids.contains(deleted_game(ops@[k]))
                && !index@.game_ids().contains(deleted_game(ops@[k])),
            forall|k1: int, k2: int| 0 <= k1 < ops@.len() && 0 <= k2 < ops@.len() && k1 != k2
                ==> deleted_game(#[trigger] ops@[k1]) != deleted_game(#[trigger] ops@[k2]),
            forall|e: Seq<char>| m0.game_ids().contains(e) && !ids.contains(e)
                ==> index@.game_ids().contains(e) || exists|k: int| 0 <= k < ops@.len() && deleted_game(#[trigger] ops@[k]) == e,
        decreases index@.games.len() - i,
    {
        let ext = index.game_external_id(i);
        if config_has_id(&config.games, &ext) {
            assert(ids.contains(index@.games[i as int].row.external_id));
            i = i + 1;
        } else {
            assert(!ids.contains(index@.games[i as int].row.external_id));
            let ghost before = index@;
            let ghost before_ops = ops@;
            let op = index.delete_game_at(i);
            proof {
                lemma_apply_ops_push(m0, ops@, op);
                let after = index@;
                let gone = before.games[i as int].row.external_id;
                assert(deleted_game(op) == gone);
                assert(before.game_ids().contains(gone));
                assert forall|a: int| 0 <= a < m0.games.len() && ids.contains((#[trigger] m0.games[a]).row.external_id)
                    implies after.games.contains(m0.games[a]) by {
                    let q = choose|q: int| 0 <= q < before.games.len() && before.games[q] == m0.games[a];
                    assert(q != i as int);
                    let q2 = if q < i { q } else { q - 1 };
                    assert(after.games[q2] == before.games[q]);
                }
                assert forall|e: Seq<char>| m0.game_ids().contains(e) && !ids.contains(e)
                    implies after.game_ids().contains(e) || exists|k: int| 0 <= k < before_ops.len() + 1
                        && deleted_game(#[trigger] before_ops.push(op)[k]) == e by {
                    if e == gone {
                        assert(before_ops.push(op)[before_ops.len() as int] == op);
                    } else if before.game_ids().contains(e) {
                        assert(after.game_ids().contains(e));
                    } else {
                        let k = choose|k: int| 0 <= k < before_ops.len() && deleted_game(#[trigger] before_ops[k]) == e;
                        assert(before_ops.push(op)[k] == before_ops[k]);
                    }
                }
                assert forall|k: int| 0 <= k < before_ops.len() implies !after.game_ids().contains(deleted_game(#[trigger] before_ops[k])) by {
                    assert(!before.game_ids().contains(deleted_game(before_ops[k])));
                }
                assert forall|k: int| 0 <= k < before_ops.len() implies deleted_game(#[trigger] before_ops[k]) != gone by {
                    assert(!before.game_ids().contains(deleted_game(before_ops[k])));
                }
                assert forall|j: int| 0 <= j < i implies ids.contains((#[trigger] after.games[j]).row.external_id) by {
                    assert(after.games[j] == before.games[j]);
                }
                assert forall|a: int| 0 <= a < after.games.len() implies m0.games.contains(#[trigger] after.games[a]) by {
                    let a2 = if a < i { a } else { a + 1 };
                    assert(after.games[a] == before.games[a2]);
                }
                assert forall|pr: (Seq<char>, Seq<char>)| m0.path_pairs().contains(pr) && ids.contains(pr.0)
                    implies #[trigger] after.path_pairs().contains(pr) by {
                    assert(before.path_pairs().contains(pr));
                    assert(pr.0 != before.games[i as int].row.external_id);
                }
            }
            ops.push(op);
            proof {
                assert(ops@ == before_ops.push(op));
                assert forall|k1: int, k2: int| 0 <= k1 < ops@.len() && 0 <= k2 < ops@.len() && k1 != k2
                    implies deleted_game(#[trigger] ops@[k1]) != deleted_game(#[trigger] ops@[k2]) by {
                    if k1 < before_ops.len() && k2 < before_ops.len() {
                        assert(ops@[k1] == before_ops[k1] && ops@[k2] == before_ops[k2]);
                    } else if k1 < before_ops.len() {
                        assert(ops@[k1] == before_ops[k1]);
                    } else {
                        assert(ops@[k2] == before_ops[k2]);
                    }
                }
                assert forall|k: int| 0 <= k < ops@.len() implies (#[trigger] ops@[k]) is DeleteGame
                    && m0.game_ids().contains(deleted_game(ops@[k]))
                    && !ids.contains(deleted_game(ops@[k]))
                    && !index@.game_ids().contains(deleted_game(ops@[k])) by {
                    if k < before_ops.len() {
                        assert(ops@[k] == before_ops[k]);
                    }
                }
            }
        }
    }
    proof {
        let m = index@;
        assert forall|e: Seq<char>| m.game_ids().contains(e) implies ids.contains(e) by {
            let k = choose|k: int| 0 <= k < m.games.len() && (#[trigger] m.games[k]).row.external_id == e;
        }
        assert(m.game_ids() =~= m0.game_ids().intersect(ids));
        assert forall|e: Seq<char>| m0.game_ids().contains(e) && !ids.contains(e)
            implies exists|k: int| 0 <= k < ops@.len() && deleted_game(#[trigger] ops@[k]) == e by {
            assert(!m.game_ids().contains(e));
        }
        assert forall|pr: (Seq<char>, Seq<char>)| #[trigger] m.path_pairs().contains(pr) implies ids.contains(pr.0) by {
            let k = choose|k: int| 0 <= k < m.games.len()
                && (#[trigger] m.games[k]).row.external_id == pr.0 && m.games[k].paths.contains(pr.1);
        }
    }
    ops
}

/// Deletes every path row whose (game, path) pair the config does not
/// declare; this drops paths removed from a game that is still configured.
pub fn prune_obsolete_paths(index: &mut IntegrityIndex, config: &VaultConfig) -> (ops: Vec<IndexOp>)
    requires
        old(index)@.wf(),
    ensures
        final(index)@.wf(),
        final(index)@ == apply_ops(old(index)@, ops@),
        final(index)@.meta == old(index)@.meta,
        final(index)@.backups == old(index)@.backups,
        final(index)@.games.len() == old(index)@.games.len(),
        forall|i: int| 0 <= i < old(index)@.games.len() ==> (#[trigger] final(index)@.games[i]).row == old(index)@.games[i].row,
        final(index)@.game_ids() == old(index)@.game_ids(),
        forall|pr: (Seq<char>, Seq<char>)| #[trigger] final(index)@.path_pairs().contains(pr)
            <==> (old(index)@.path_pairs().contains(pr) && config_pairs(config.games@).contains(pr)),
        forall|k: int| 0 <= k < ops@.len() ==> (#[trigger] ops@[k]) is DeletePath
            && old(index)@.path_pairs().contains(deleted_pair(ops@[k]))
            && !config_pairs(config.games@).contains(deleted_pair(ops@[k])),
        forall|k1: int, k2: int| 0 <= k1 < ops@.len() && 0 <= k2 < ops@.len() && k1 != k2
            ==> deleted_pair(#[trigger] ops@[k1]) != deleted_pair(#[trigger] ops@[k2]),
        forall|pr: (Seq<char>, Seq<char>)| old(index)@.path_pairs().contains(pr) && !config_pairs(config.games@).contains(pr)
            ==> exists|k: int| 0 <= k < ops@.len() && deleted_pair(#[trigger] ops@[k]) == pr,
{
    let ghost m0 = index@;
    let ghost pairs = config_pairs(config.games@);
    let mut ops: Vec<IndexOp> = Vec::new();
    let mut i: usize = 0;
    while i < index.game_count()
        invariant
            m0 == old(index)@,
            index@.wf(),
            index@ == apply_ops(m0, ops@),
            index@.meta == m0.meta,
            index@.backups == m0.backups,
            index@.games.len() == m0.games.len(),
            forall|a: int| 0 <= a < m0.games.len() ==> (#[trigger] index@.games[a]).row == m0.games[a].row,
            index@.game_ids() == m0.game_ids(),
            pairs == config_pairs(config.games@),
            i <= index@.games.len(),
            forall|a: int, p: Seq<char>| 0 <= a < i && #[trigger] index@.games[a].paths.contains(p)
                ==> pairs.contains((index@.games[a].row.external_id, p)),
            forall|pr: (Seq<char>, Seq<char>)| #[trigger] index@.path_pairs().contains(pr) ==> m0.path_pairs().contains(pr),
            forall|pr: (Seq<char>, Seq<char>)| m0.path_pairs().contains(pr) && pairs.contains(pr)
                ==> #[trigger] index@.path_pairs().contains(pr),
            forall|k: int| 0 <= k < ops@.len() ==> (#[trigger] ops@[k]) is DeletePath
                && m0.path_pairs().contains(deleted_pair(ops@[k]))
                && !pairs.contains(deleted_pair(ops@[k]))
                && !index@.path_pairs().contains(deleted_pair(ops@[k])),
            forall|k1: int, k2: int| 0 <= k1 < ops@.len() && 0 <= k2 < ops@.len() && k1 != k2
                ==> deleted_pair(#[trigger] ops@[k1]) != deleted_pair(#[trigger] ops@[k2]),
            forall|pr: (Seq<char>, Seq<char>)| m0.path_pairs().contains(pr) && !pairs.contains(pr)
                ==> index@.path_pairs().contains(pr) || exists|k: int| 0 <= k < ops@.len() && deleted_pair(#[trigger] ops@[k]) == pr,
        decreases index@.games.len() - i,
    {
        let ext = index.game_external_id(i);
        let mut j: usize = 0;
        while j < index.path_count(i)
            invariant
                m0 == old(index)@,
                index@.wf(),
                index@ == apply_ops(m0, ops@),
                index@.meta == m0.meta,
                index@.backups == m0.backups,
                index@.games.len() == m0.games.len(),
                forall|a: int| 0 <= a < m0.games.len() ==> (#[trigger] index@.games[a]).row == m0.games[a].row,
                index@.game_ids() == m0.game_ids(),
                i < index@.games.len(),
                pairs == config_pairs(config.games@),
                ext@ == index@.games[i as int].row.external_id,
                j <= index@.games[i as int].paths.len(),
                forall|a: int, p: Seq<char>| 0 <= a < i && #[trigger] index@.games[a].paths.contains(p)
                    ==> pairs.contains((index@.games[a].row.external_id, p)),
                forall|b: int| 0 <= b < j ==> pairs.contains((ext@, #[trigger] index@.games[i as int].paths[b])),
                forall|pr: (Seq<char>, Seq<char>)| #[trigger] index@.path_pairs().contains(pr) ==> m0.path_pairs().contains(pr),
                forall|pr: (Seq<char>, Seq<char>)| m0.path_pairs().contains(pr) && pairs.contains(pr)
                    ==> #[trigger] index@.path_pairs().contains(pr),
                forall|k: int| 0 <= k < ops@.len() ==> (#[trigger] ops@[k]) is DeletePath
                    && m0.path_pairs().contains(deleted_pair(ops@[k]))
                    && !pairs.contains(deleted_pair(ops@[k]))
                    && !index@.path_pairs().contains(deleted_pair(ops@[k])),
                forall|k1: int, k2: int| 0 <= k1 < ops@.len() && 0 <= k2 < ops@.len() && k1 != k2
                    ==> deleted_pair(#[trigger] ops@[k1]) != deleted_pair(#[trigger] ops@[k2]),
                forall|pr: (Seq<char>, Seq<char>)| m0.path_pairs().contains(pr) && !pairs.contains(pr)
                    ==> index@.path_pairs().contains(pr) || exists|k: int| 0 <= k < ops@.len() && deleted_pair(#[trigger] ops@[k]) == pr,
            decreases index@.games[i as int].paths.len() - j,
        {
            let path = index.path_at(i, j);
            if config_has_pair(&config.games, &ext, &path) {
                assert(pairs.contains((ext@, index@.games[i as int].paths[j as int])));
                j = j + 1;
            } else {
                assert(!pairs.contains((ext@, index@.games[i as int].paths[j as int])));
                let ghost before = index@;
                let ghost before_ops = ops@;
                let op = index.delete_path_at(i, j);
                proof {
                    lemma_apply_ops_push(m0, ops@, op);
                    let after = index@;
                    let gone = (before.games[i as int].row.external_id, before.games[i as int].paths[j as int]);
                    assert(deleted_pair(op) == gone);
                    assert(before.games[i as int].paths.contains(gone.1));
                    assert(before.path_pairs().contains(gone));
                    assert(!after.path_pairs().contains(gone));
                    assert forall|pr: (Seq<char>, Seq<char>)| m0.path_pairs().contains(pr) && !pairs.contains(pr)
                        implies after.path_pairs().contains(pr) || exists|k: int| 0 <= k < before_ops.len() + 1
                            && deleted_pair(#[trigger] before_ops.push(op)[k]) == pr by {
                        if pr == gone {
                            assert(before_ops.push(op)[before_ops.len() as int] == op);
                        } else if before.path_pairs().contains(pr) {
                            assert(after.path_pairs().contains(pr));
                        } else {
                            let k = choose|k: int| 0 <= k < before_ops.len() && deleted_pair(#[trigger] before_ops[k]) == pr;
                            assert(before_ops.push(op)[k] == before_ops[k]);
                        }
                    }
                    assert forall|k: int| 0 <= k < before_ops.len() implies !after.path_pairs().contains(deleted_pair(#[trigger] before_ops[k]))
                        && deleted_pair(before_ops[k]) != gone by {
                        assert(!before.path_pairs().contains(deleted_pair(before_ops[k])));
                    }
                    assert forall|a: int| 0 <= a < m0.games.len() implies (#[trigger] after.games[a]).row == m0.games[a].row by {
                        if a != i as int {
                            assert(after.games[a] == before.games[a]);
                        }
                    }
                    assert forall|a: int, p: Seq<char>| 0 <= a < i && #[trigger] after.games[a].paths.contains(p)
                        implies pairs.contains((after.games[a].row.external_id, p)) by {
                        assert(after.games[a] == before.games[a]);
                    }
                    assert forall|b: int| 0 <= b < j implies pairs.contains((ext@, #[trigger] after.games[i as int].paths[b])) by {
                        assert(after.games[i as int].paths[b] == before.games[i as int].paths[b]);
                    }
                    assert forall|pr: (Seq<char>, Seq<char>)| m0.path_pairs().contains(pr) && pairs.contains(pr)
                        implies #[trigger] after.path_pairs().contains(pr) by {
                        assert(before.path_pairs().contains(pr));
                        assert(pr != (before.games[i as int].row.external_id, before.games[i as int].paths[j as int]));
                    }
                }
                ops.push(op);
                proof {
                    assert(ops@ == before_ops.push(op));
                    assert forall|k1: int, k2: int| 0 <= k1 < ops@.len() && 0 <= k2 < ops@.len() && k1 != k2
                        implies deleted_pair(#[trigger] ops@[k1]) != deleted_pair(#[trigger] ops@[k2]) by {
                        if k1 < before_ops.len() && k2 < before_ops.len() {
                            assert(ops@[k1] == before_ops[k1] && ops@[k2] == before_ops[k2]);
                        } else if k1 < before_ops.len() {
                            assert(ops@[k1] == before_ops[k1]);
                        } else {
                            assert(ops@[k2] == before_ops[k2]);
                        }
                    }
                    assert forall|k: int| 0 <= k < ops@.len() implies (#[trigger] ops@[k]) is DeletePath
                        && m0.path_pairs().contains(deleted_pair(ops@[k]))
                        && !pairs.contains(deleted_pair(ops@[k]))
                        && !index@.path_pairs().contains(deleted_pair(ops@[k])) by {
                        if k < before_ops.len() {
                            assert(ops@[k] == before_ops[k]);
                        }
                    }
                }
            }
        }
        proof {
            let m = index@;
            assert forall|a: int, p: Seq<char>| 0 <= a < i + 1 && #[trigger] m.games[a].paths.contains(p)
                implies pairs.contains((m.games[a].row.external_id, p)) by {
                if a == i as int {
                    let b = choose|b: int| 0 <= b < m.games[a].paths.len() && m.games[a].paths[b] == p;
                    assert(pairs.contains((ext@, m.games[i as int].paths[b])));
                }
            }
        }
        i = i + 1;
    }
    proof {
        let m = index@;
        assert forall|pr: (Seq<char>, Seq<char>)| #[trigger] m.path_pairs().contains(pr) implies pairs.contains(pr) by {
            let k = choose|k: int| 0 <= k < m.games.len()
                && (#[trigger] m.games[k]).row.external_id == pr.0 && m.games[k].paths.contains(pr.1);
        }
        assert forall|pr: (Seq<char>, Seq<char>)| m0.path_pairs().contains(pr) && !pairs.contains(pr)
            implies exists|k: int| 0 <= k < ops@.len() && deleted_pair(#[trigger] ops@[k]) == pr by {
            assert(!m.path_pairs().contains(pr));
        }
    }
    ops
}


/// The views of the writes in a result.
pub open spec fn ops_view(r: Result<Vec<IndexOp>, KaguyaError>) -> Result<Seq<IndexOp>, KaguyaError> {
    match r {
        Ok(v) => Ok(v@),
        Err(e) => Err(e),
    }
}

/// Runs the full reconciliation: upsert games and paths, prune games, prune
/// paths, then store the config's hash. A failure leaves the stored hash as
/// it was, so the next sync retries the whole reconciliation.
pub fn perform_sync(index: &mut IntegrityIndex, config: &VaultConfig, new_hash: &str, now: i64) -> (r: Result<Vec<IndexOp>, KaguyaError>)
    requires
        old(index)@.wf(),
    ensures
        final(index)@.wf(),
        r matches Ok(ops) ==> final(index)@ == apply_ops(old(index)@, ops@),
        r matches Ok(_) ==> {
            &&& reconciled(final(index)@, config.games@)
            &&& forall|i: int| 0 <= i < old(index)@.games.len()
                && config_ids(config.games@).contains((#[trigger] old(index)@.games[i]).row.external_id)
                ==> game_kept(config.games@, old(index)@.games[i].row, final(index)@)
            &&& final(index)@.meta_get(KEY_VAULT_CONFIG_HASH@) == Some(new_hash@)
            &&& final(index)@.backups == old(index)@.backups
        },
        r matches Err(e) ==> e is Database && final(index)@.meta == old(index)@.meta,
        old(index)@.next_id + config.games@.len() < i64::MAX ==> r is Ok,
{
    let ghost m0 = index@;
    let ghost cfg = config.games@;
    let mut ops = match upsert_games_from_config(index, config, now) {
        Ok(ops) => ops,
        Err(e) => {
            return Err(e);
        },
    };
    let ghost m1 = index@;
    let mut pruned_games = prune_obsolete_games(index, config);
    let ghost m2 = index@;
    proof {
        lemma_apply_ops_concat(m0, ops@, pruned_games@);
    }
    ops.append(&mut pruned_games);
    let mut pruned_paths = prune_obsolete_paths(index, config);
    let ghost m3 = index@;
    proof {
        lemma_apply_ops_concat(m0, ops@, pruned_paths@);
    }
    ops.append(&mut pruned_paths);
    let op = index.update_meta_value(KEY_VAULT_CONFIG_HASH, new_hash);
    proof {
        lemma_apply_ops_push(m0, ops@, op);
    }
    ops.push(op);
    proof {
        let m4 = index@;
        assert(m2.game_ids() =~= config_ids(cfg));
        assert forall|pr: (Seq<char>, Seq<char>)| m3.path_pairs().contains(pr) == config_pairs(cfg).contains(pr) by {
            if config_pairs(cfg).contains(pr) {
                let k = choose|k: int| 0 <= k < cfg.len() && (#[trigger] cfg[k]).id@ == pr.0 && cfg[k].paths.deep_view().contains(pr.1);
                assert(config_ids(cfg).contains(pr.0));
                assert(m1.path_pairs().contains(pr));
                assert(m2.path_pairs().contains(pr));
            }
        }
        assert(m3.path_pairs() =~= config_pairs(cfg));
        assert(m4.game_ids() =~= m3.game_ids());
        assert(m4.path_pairs() =~= m3.path_pairs());
        assert forall|i: int| 0 <= i < m0.games.len() && config_ids(cfg).contains((#[trigger] m0.games[i]).row.external_id)
            implies game_kept(cfg, m0.games[i].row, m4) by {
            assert(m1.games[i].row.external_id == m0.games[i].row.external_id);
            assert(m2.games.contains(m1.games[i]));
            let j = choose|j: int| 0 <= j < m2.games.len() && m2.games[j] == m1.games[i];
            assert(m4.games[j].row == m3.games[j].row);
            assert(m3.games[j].row == m2.games[j].row);
        }
        assert forall|i: int| 0 <= i < m4.games.len() implies row_from_config(cfg, (#[trigger] m4.games[i]).row) by {
            assert(m4.games[i].row == m2.games[i].row);
            assert(m1.games.contains(m2.games[i]));
            let j = choose|j: int| 0 <= j < m1.games.len() && m1.games[j] == m2.games[i];
            assert(m2.game_ids().contains(m2.games[i].row.external_id));
            assert(config_ids(cfg).contains(m1.games[j].row.external_id));
        }
    }
    Ok(ops)
}

/// Reconciles the index with the config when the config's hash differs from
/// the stored one, or when forced; otherwise makes no write at all.
pub fn sync(index: &mut IntegrityIndex, config: &VaultConfig, config_hash: &str, force: bool, now: i64) -> (r: Result<Vec<IndexOp>, KaguyaError>)
    requires
        old(index)@.wf(),
    ensures
        sync_post(old(index)@, final(index)@, ops_view(r), config.games@, config_hash@, force),
{
    let stored = index.get_meta_value(KEY_VAULT_CONFIG_HASH);
    let current = config_hash.to_string();
    let unchanged = match &stored {
        Some(h) => *h == current,
        None => false,
    };
    if !force && unchanged {
        let ops: Vec<IndexOp> = Vec::new();
        assert(apply_ops(index@, ops@) == index@);
        return Ok(ops);
    }
    perform_sync(index, config, config_hash, now)
}

/// Two syncs of an unchanged config in a row: the second makes no write and
/// leaves the index as the first left it.
pub proof fn lemma_second_sync_writes_nothing(
    m0: IndexModel,
    m1: IndexModel,
    first: Result<Seq<IndexOp>, KaguyaError>,
    force: bool,
    m2: IndexModel,
    second: Result<Seq<IndexOp>, KaguyaError>,
    games: Seq<GameConfig>,
    hash: Seq<char>,
)
    requires
        first is Ok,
        sync_post(m0, m1, first, games, hash, force),
        sync_post(m1, m2, second, games, hash, false),
    ensures
        second == Ok::<Seq<IndexOp>, KaguyaError>(Seq::empty()),
        m2 == m1,
{
    if !needs_sync(m0, hash, force) {
        assert(m1 == m0);
    }
}

/// After a sync that reconciled (forced, or the config's hash changed) and
/// succeeded, the index holds exactly the config's game ids and exactly the
/// (game, path) pairs it declares, whatever games and paths it held before.
pub proof fn lemma_sync_reconciles(
    m0: IndexModel,
    m1: IndexModel,
    r: Result<Seq<IndexOp>, KaguyaError>,
    games: Seq<GameConfig>,
    hash: Seq<char>,
    force: bool,
)
    requires
        r is Ok,
        needs_sync(m0, hash, force),
        sync_post(m0, m1, r, games, hash, force),
    ensures
        m1.game_ids() == config_ids(games),
        m1.path_pairs() == config_pairs(games),
{
}


/// A forced sync of an index that already matches the config, row for row,
/// rewrites no game row and changes no (game, path) pair.
pub proof fn lemma_resync_keeps_rows(
    m0: IndexModel,
    m1: IndexModel,
    r: Result<Seq<IndexOp>, KaguyaError>,
    games: Seq<GameConfig>,
    hash: Seq<char>,
)
    requires
        r is Ok,
        sync_post(m0, m1, r, games, hash, true),
        reconciled(m0, games),
        forall|i: int| 0 <= i < m0.games.len() ==> matches_all_entries(games, (#[trigger] m0.games[i]).row),
    ensures
        forall|i: int| 0 <= i < m0.games.len() ==> exists|j: int|
            0 <= j < m1.games.len() && (#[trigger] m1.games[j]).row == (#[trigger] m0.games[i]).row,
        m1.path_pairs() == m0.path_pairs(),
        m1.game_ids() == m0.game_ids(),
{
    assert forall|i: int| 0 <= i < m0.games.len() implies exists|j: int|
        0 <= j < m1.games.len() && (#[trigger] m1.games[j]).row == (#[trigger] m0.games[i]).row by {
        assert(m0.game_ids().contains(m0.games[i].row.external_id));
        assert(game_kept(games, m0.games[i].row, m1));
    }
}

} // verus!
