//! The declarative vault config: games, their paths, and the edits that
//! `config add` and `config rm` make to it.
use crate::error::KaguyaError;
use vstd::prelude::*;

verus! {

/// One game entry of the declarative config.
#[derive(Debug, Clone)]
pub struct GameConfig {
    /// Stable, user-chosen identifier.
    pub id: String,
    /// Friendly name; defaults to the id.
    pub name: String,
    /// Save and configuration paths, in the order they were first added.
    pub paths: Vec<String>,
    /// Optional free-form comment.
    pub comment: Option<String>,
    /// Retention hint; not enforced.
    pub keep_versions: Option<i64>,
}

/// The whole declarative config: an ordered list of games.
#[derive(Debug, Clone)]
pub struct VaultConfig {
    pub games: Vec<GameConfig>,
}

/// The config file's contents, under the name the file layer uses.
pub type GamesFile = VaultConfig;

/// A request to add a game or merge into an existing one.
#[derive(Debug)]
pub struct AddGameRequest<'a> {
    pub id: &'a str,
    pub name: Option<&'a str>,
    pub paths: Option<&'a Vec<String>>,
    pub comment: Option<&'a str>,
}

/// A request to list the configured games.
#[derive(Debug)]
pub struct ListGameRequest<'a> {
    pub long: &'a bool,
}

/// A request to remove a game from the config.
#[derive(Debug)]
pub struct RmGameRequest<'a> {
    pub id: &'a str,
    pub purge: &'a bool,
}

/// Mathematical view of a game entry.
pub struct GameView {
    pub id: Seq<char>,
    pub name: Seq<char>,
    pub paths: Seq<Seq<char>>,
    pub comment: Option<Seq<char>>,
    pub keep_versions: Option<i64>,
}

pub open spec fn opt_str_view(o: Option<String>) -> Option<Seq<char>> {
    match o {
        Some(s) => Some(s@),
        None => None,
    }
}

pub open spec fn opt_ref_view(o: Option<&str>) -> Option<Seq<char>> {
    match o {
        Some(s) => Some(s@),
        None => None,
    }
}

impl View for GameConfig {
    type V = GameView;

    open spec fn view(&self) -> GameView {
        GameView {
            id: self.id@,
            name: self.name@,
            paths: self.paths.deep_view(),
            comment: opt_str_view(self.comment),
            keep_versions: self.keep_versions,
        }
    }
}

/// The paths that an add request names, empty when it names none.
pub open spec fn request_paths(r: AddGameRequest) -> Seq<Seq<char>> {
    match r.paths {
        Some(p) => p.deep_view(),
        None => Seq::empty(),
    }
}

/// `acc` followed by each path of `new` that is not already present,
/// in first-seen order.
pub open spec fn merge_paths(acc: Seq<Seq<char>>, new: Seq<Seq<char>>) -> Seq<Seq<char>>
    decreases new.len(),
{
    if new.len() == 0 {
        acc
    } else {
        let m = merge_paths(acc, new.drop_last());
        if m.contains(new.last()) {
            m
        } else {
            m.push(new.last())
        }
    }
}

/// What the merge holds: the old paths first and unchanged, then only paths
/// that are new; every path of either list, and no path twice when the old
/// list had none twice.
pub proof fn lemma_merge_paths(acc: Seq<Seq<char>>, new: Seq<Seq<char>>)
    ensures
        merge_paths(acc, new).len() >= acc.len(),
        merge_paths(acc, new).take(acc.len() as int) == acc,
        forall|x: Seq<char>| #[trigger] merge_paths(acc, new).contains(x) <==> (acc.contains(x) || new.contains(x)),
        crate::index::seq_unique(acc) ==> crate::index::seq_unique(merge_paths(acc, new)),
    decreases new.len(),
{
    if new.len() == 0 {
        assert(acc.take(acc.len() as int) =~= acc);
    } else {
        let m = merge_paths(acc, new.drop_last());
        lemma_merge_paths(acc, new.drop_last());
        assert forall|x: Seq<char>| new.contains(x) <==> (new.drop_last().contains(x) || x == new.last()) by {
            if new.contains(x) {
                let k = choose|k: int| 0 <= k < new.len() && new[k] == x;
                if k < new.len() - 1 {
                    assert(new.drop_last()[k] == x);
                }
            }
            if new.drop_last().contains(x) {
                let k = choose|k: int| 0 <= k < new.drop_last().len() && new.drop_last()[k] == x;
                assert(new[k] == x);
            }
            if x == new.last() {
                assert(new[new.len() - 1] == x);
            }
        }
        if !m.contains(new.last()) {
            let r = m.push(new.last());
            assert(r.take(acc.len() as int) =~= m.take(acc.len() as int));
            assert forall|x: Seq<char>| r.contains(x) <==> (m.contains(x) || x == new.last()) by {
                if r.contains(x) {
                    let k = choose|k: int| 0 <= k < r.len() && r[k] == x;
                    if k < m.len() {
                        assert(m[k] == x);
                    }
                }
                if m.contains(x) {
                    let k = choose|k: int| 0 <= k < m.len() && m[k] == x;
                    assert(r[k] == x);
                }
                if x == new.last() {
                    assert(r[m.len() as int] == x);
                }
            }
            if crate::index::seq_unique(acc) {
                assert forall|i: int, j: int| 0 <= i < r.len() && 0 <= j < r.len() && i != j implies r[i] != r[j] by {
                    if i == m.len() {
                        assert(m[j] == r[j]);
                        assert(m.contains(m[j]));
                    } else if j == m.len() {
                        assert(m[i] == r[i]);
                        assert(m.contains(m[i]));
                    }
                }
            }
        }
    }
}

/// Re-adding paths that a game already lists leaves its list as it was:
/// the merge never duplicates a path.
pub proof fn lemma_merge_known_paths(acc: Seq<Seq<char>>, new: Seq<Seq<char>>)
    requires
        forall|i: int| 0 <= i < new.len() ==> acc.contains(#[trigger] new[i]),
    ensures
        merge_paths(acc, new) == acc,
    decreases new.len(),
{
    if new.len() > 0 {
        lemma_merge_known_paths(acc, new.drop_last());
        assert(acc.contains(new[new.len() - 1]));
    }
}

/// Mathematical view of an add request.
pub struct AddView {
    pub id: Seq<char>,
    pub name: Option<Seq<char>>,
    pub paths: Seq<Seq<char>>,
    pub comment: Option<Seq<char>>,
}

pub open spec fn add_view(r: AddGameRequest) -> AddView {
    AddView { id: r.id@, name: opt_ref_view(r.name), paths: request_paths(r), comment: opt_ref_view(r.comment) }
}

/// The entry that a request creates when no entry has its id.
pub open spec fn entry_from_request(r: AddView) -> GameView {
    GameView {
        id: r.id,
        name: match r.name {
            Some(n) => n,
            None => r.id,
        },
        paths: r.paths,
        comment: r.comment,
        keep_versions: None,
    }
}

/// An existing entry after a request for its id was merged into it.
pub open spec fn entry_merged(g: GameView, r: AddView) -> GameView {
    GameView {
        id: g.id,
        name: match r.name {
            Some(n) => n,
            None => g.name,
        },
        paths: merge_paths(g.paths, r.paths),
        comment: match r.comment {
            Some(c) => Some(c),
            None => g.comment,
        },
        keep_versions: g.keep_versions,
    }
}

/// Whether some entry of `games` has the id `id`.
pub open spec fn has_id(games: Seq<GameConfig>, id: Seq<char>) -> bool {
    exists|i: int| 0 <= i < games.len() && (#[trigger] games[i]).id@ == id
}

/// The position of the first entry with the id `id` (meaningful when `has_id`).
pub open spec fn first_index(games: Seq<GameConfig>, id: Seq<char>) -> int {
    choose|i: int|
        0 <= i < games.len() && games[i].id@ == id && forall|j: int|
            0 <= j < i ==> (#[trigger] games[j]).id@ != id
}

/// The entries of `games` whose id is not `id`, in order.
pub open spec fn without_id(games: Seq<GameConfig>, id: Seq<char>) -> Seq<GameConfig>
    decreases games.len(),
{
    if games.len() == 0 {
        games
    } else {
        let rest = without_id(games.drop_last(), id);
        if games.last().id@ == id {
            rest
        } else {
            rest.push(games.last())
        }
    }
}

pub proof fn lemma_first_index(games: Seq<GameConfig>, id: Seq<char>, k: int)
    requires
        0 <= k < games.len(),
        games[k].id@ == id,
        forall|j: int| 0 <= j < k ==> (#[trigger] games[j]).id@ != id,
    ensures
        first_index(games, id) == k,
{
    let f = first_index(games, id);
    assert(0 <= f < games.len() && games[f].id@ == id && forall|j: int|
        0 <= j < f ==> (#[trigger] games[j]).id@ != id);
    if f < k {
        assert(games[f].id@ != id);
    } else if f > k {
        assert(games[k].id@ != id);
    }
}

/// Whether `p` is one of the paths in `paths`; compares by content.
pub fn contains_path(paths: &Vec<String>, p: &String) -> (r: bool)
    ensures
        r == paths.deep_view().contains(p@),
{
    let mut i: usize = 0;
    while i < paths.len()
        invariant
            i <= paths.len(),
            forall|j: int| 0 <= j < i ==> paths.deep_view()[j] != p@,
        decreases paths.len() - i,
    {
        if paths[i] == *p {
            assert(paths.deep_view()[i as int] == p@);
            return true;
        }
        i = i + 1;
    }
    proof {
        if paths.deep_view().contains(p@) {
            let k = choose|k: int| 0 <= k < paths.deep_view().len() && paths.deep_view()[k] == p@;
            assert(paths.deep_view()[k] != p@);
        }
    }
    false
}

fn opt_to_string(o: Option<&str>) -> (r: Option<String>)
    ensures
        opt_str_view(r) == opt_ref_view(o),
{
    match o {
        Some(s) => Some(s.to_string()),
        None => None,
    }
}

impl GameConfig {
    /// Creates the entry for a game that is not yet configured: the name
    /// defaults to the id, and the paths are the request's, as given.
    pub fn from_request(request: AddGameRequest) -> (r: GameConfig)
        ensures
            r@ == entry_from_request(add_view(request)),
    {
        let name = match request.name {
            Some(n) => n.to_string(),
            None => request.id.to_string(),
        };
        let paths = match request.paths {
            Some(p) => p.clone(),
            None => Vec::new(),
        };
        proof {
            if request.paths.is_some() {
                assert(paths.deep_view() =~= request.paths.unwrap().deep_view());
            } else {
                assert(paths.deep_view() =~= Seq::<Seq<char>>::empty());
            }
        }
        GameConfig {
            id: request.id.to_string(),
            name,
            paths,
            comment: opt_to_string(request.comment),
            keep_versions: None,
        }
    }
}

/// The union of `existing` and `new`, keeping the order in which each path was
/// first seen; a path already present is not added again.
pub fn merge_path_lists(existing: &Vec<String>, new: &Vec<String>) -> (r: Vec<String>)
    ensures
        r.deep_view() == merge_paths(existing.deep_view(), new.deep_view()),
{
    let mut combined = existing.clone();
    assert(combined.deep_view() =~= existing.deep_view());
    let mut i: usize = 0;
    while i < new.len()
        invariant
            i <= new.len(),
            combined.deep_view() == merge_paths(existing.deep_view(), new.deep_view().take(i as int)),
        decreases new.len() - i,
    {
        let ghost before = combined.deep_view();
        assert(new.deep_view().take(i + 1).drop_last() =~= new.deep_view().take(i as int));
        if !contains_path(&combined, &new[i]) {
            combined.push(new[i].clone());
            assert(combined.deep_view() =~= before.push(new[i as int]@));
        }
        i = i + 1;
    }
    assert(new.deep_view().take(new.len() as int) =~= new.deep_view());
    combined
}

/// Merges a request into the existing entry with its id: new paths are
/// appended when not already present, and the name and comment are replaced
/// only when the request supplies them.
pub fn apply_update(exist: &mut GameConfig, request: &AddGameRequest) -> (r: Result<(), KaguyaError>)
    ensures
        r is Ok,
        final(exist)@ == entry_merged(old(exist)@, add_view(*request)),
{
    let merged = match request.paths {
        Some(p) => merge_path_lists(&exist.paths, p),
        None => {
            assert(merge_paths(exist.paths.deep_view(), Seq::empty()) == exist.paths.deep_view());
            exist.paths.clone()
        },
    };
    proof {
        if request.paths.is_none() {
            assert(merged.deep_view() =~= exist.paths.deep_view());
        }
    }
    exist.paths = merged;
    if let Some(n) = request.name {
        exist.name = n.to_string();
    }
    if let Some(c) = request.comment {
        exist.comment = Some(c.to_string());
    }
    Ok(())
}

/// The position of the first game with the id `id`, if any.
pub fn find_game_index(games: &[GameConfig], id: &str) -> (r: Option<usize>)
    ensures
        r is Some <==> has_id(games@, id@),
        r matches Some(i) ==> i < games@.len() && i == first_index(games@, id@),
{
    let key = id.to_string();
    let mut i: usize = 0;
    while i < games.len()
        invariant
            i <= games@.len(),
            key@ == id@,
            forall|j: int| 0 <= j < i ==> (#[trigger] games@[j]).id@ != id@,
        decreases games.len() - i,
    {
        if games[i].id == key {
            proof {
                lemma_first_index(games@, id@, i as int);
            }
            return Some(i);
        }
        i = i + 1;
    }
    None
}

/// Finds a game by id and returns a shared reference to it.
pub fn find_game_ref<'a>(games: &'a [GameConfig], id: &str) -> (r: Option<&'a GameConfig>)
    ensures
        r is Some <==> has_id(games@, id@),
        r matches Some(g) ==> *g == games@[first_index(games@, id@)],
{
    match find_game_index(games, id) {
        Some(i) => Some(&games[i]),
        None => None,
    }
}

/// Finds a game by id and returns a mutable reference to it.
pub fn find_game_mut<'a>(games: &'a mut Vec<GameConfig>, id: &str) -> (r: Option<&'a mut GameConfig>)
    ensures
        r is Some <==> has_id(old(games)@, id@),
        r matches Some(g) ==> {
            &&& *g == old(games)@[first_index(old(games)@, id@)]
            &&& final(games)@ == old(games)@.update(first_index(old(games)@, id@), *final(g))
        },
        r is None ==> final(games)@ == old(games)@,
{
    match find_game_index(games.as_slice(), id) {
        Some(i) => Some(&mut games[i]),
        None => None,
    }
}


/// The listing line of one path: the full path, or in the short form only
/// its final component (empty when it has none).
pub open spec fn path_line(path: Seq<char>, long: bool) -> Seq<char> {
    "\t- "@ + if long {
        path
    } else {
        match crate::paths::file_name_of(path) {
            Some(n) => n,
            None => Seq::empty(),
        }
    }
}

pub open spec fn path_lines(paths: Seq<Seq<char>>, long: bool) -> Seq<Seq<char>>
    decreases paths.len(),
{
    if paths.len() == 0 {
        Seq::empty()
    } else {
        path_lines(paths.drop_last(), long).push(path_line(paths.last(), long))
    }
}

/// The listing lines of one game.
pub open spec fn game_lines(g: GameView, long: bool) -> Seq<Seq<char>> {
    let head = if long {
        seq![
            "Game ID: "@ + g.id,
            "Name: "@ + g.name,
            "Comment: "@ + match g.comment { Some(c) => c, None => Seq::empty() },
            "Saves and configuration paths:"@,
        ]
    } else {
        seq!["Game ID: "@ + g.id, "Saves and configuration paths:"@]
    };
    head + path_lines(g.paths, long) + seq![Seq::<char>::empty()]
}

pub open spec fn games_lines(games: Seq<GameConfig>, long: bool) -> Seq<Seq<char>>
    decreases games.len(),
{
    if games.len() == 0 {
        Seq::empty()
    } else {
        games_lines(games.drop_last(), long) + game_lines(games.last()@, long)
    }
}

/// The lines that list a config: a hint when it holds no game.
pub open spec fn listing_lines(games: Seq<GameConfig>, long: bool) -> Seq<Seq<char>> {
    if games.len() == 0 {
        seq![EMPTY_LIST_HINT@, VAULT_OPTION_HINT@]
    } else {
        games_lines(games, long)
    }
}

/// First line shown for an empty config.
pub const EMPTY_LIST_HINT: &'static str = "Games list is empty, use 'kaguya config add' to add some games.";

/// Second line shown for an empty config.
pub const VAULT_OPTION_HINT: &'static str =
    "If you already have a Kaguya vault, check '-v/--vault' option or 'vault' in the config file.";

pub open spec fn text_lines(v: Seq<String>) -> Seq<Seq<char>> {
    v.map_values(|s: String| s@)
}

fn prefixed(prefix: &str, s: &str) -> (r: String)
    ensures
        r@ == prefix@ + s@,
{
    let mut out = prefix.to_string();
    out.append(s);
    out
}

fn push_line(out: &mut Vec<String>, line: String)
    ensures
        text_lines(final(out)@) == text_lines(old(out)@).push(line@),
{
    let ghost before = out@;
    out.push(line);
    assert(text_lines(out@) =~= text_lines(before).push(line@));
}

proof fn lemma_without_absent(games: Seq<GameConfig>, id: Seq<char>)
    requires
        !has_id(games, id),
    ensures
        without_id(games, id) == games,
    decreases games.len(),
{
    if games.len() > 0 {
        assert(!has_id(games.drop_last(), id)) by {
            if has_id(games.drop_last(), id) {
                let k = choose|k: int| 0 <= k < games.drop_last().len() && (#[trigger] games.drop_last()[k]).id@ == id;
                assert(games[k].id@ == id);
            }
        }
        lemma_without_absent(games.drop_last(), id);
        assert(games.last().id@ != id) by {
            assert(games[games.len() - 1].id@ != id);
        }
        assert(games.drop_last().push(games.last()) =~= games);
    }
}

/// The config after an add request: the game with the request's id merged
/// with the request, or a new entry for it at the end.
pub open spec fn added(old: Seq<GameConfig>, new: Seq<GameConfig>, request: AddView) -> bool {
    &&& has_id(old, request.id) ==> {
        let i = first_index(old, request.id);
        &&& new.len() == old.len()
        &&& new[i]@ == entry_merged(old[i]@, request)
        &&& forall|k: int| 0 <= k < old.len() && k != i ==> #[trigger] new[k] == old[k]
    }
    &&& !has_id(old, request.id) ==> {
        &&& new.len() == old.len() + 1
        &&& new.last()@ == entry_from_request(request)
        &&& new.drop_last() == old
    }
}

/// The config after a remove request: every entry with the id gone, or
/// `GameNotFound` and no change when there is none.
pub open spec fn removed(old: Seq<GameConfig>, new: Seq<GameConfig>, id: Seq<char>, r: Result<(), KaguyaError>) -> bool {
    &&& r is Ok <==> has_id(old, id)
    &&& r is Ok ==> new == without_id(old, id)
    &&& r matches Err(e) ==> (e matches KaguyaError::GameNotFound(s) && s@ == id) && new == old
}

/// Manages the declarative config for the `config` commands.
pub struct ConfigService;

impl ConfigService {
    /// Adds a game, or merges the request into the game with its id.
    pub fn add_or_update_game(config: &mut VaultConfig, request: AddGameRequest) -> (r: Result<(), KaguyaError>)
        ensures
            r is Ok,
            added(old(config).games@, final(config).games@, add_view(request)),
    {
        match find_game_index(config.games.as_slice(), request.id) {
            Some(i) => {
                let _ = apply_update(&mut config.games[i], &request);
            },
            None => {
                let ghost before = config.games@;
                config.games.push(GameConfig::from_request(request));
                assert(config.games@.drop_last() =~= before);
            },
        }
        Ok(())
    }

    /// The lines that list the configured games: id, then in the long form
    /// name and comment, then each path (in the short form only its final
    /// component), and a blank line after each game.
    pub fn list_games(config: &VaultConfig, request: &ListGameRequest) -> (r: Vec<String>)
        ensures
            text_lines(r@) == listing_lines(config.games@, *request.long),
    {
        let long = *request.long;
        let mut out: Vec<String> = Vec::new();
        if config.games.len() == 0 {
            push_line(&mut out, EMPTY_LIST_HINT.to_string());
            push_line(&mut out, VAULT_OPTION_HINT.to_string());
            assert(text_lines(out@) =~= seq![EMPTY_LIST_HINT@, VAULT_OPTION_HINT@]);
            return out;
        }
        assert(text_lines(out@) =~= Seq::<Seq<char>>::empty());
        let mut k: usize = 0;
        while k < config.games.len()
            invariant
                long == *request.long,
                k <= config.games@.len(),
                text_lines(out@) == games_lines(config.games@.take(k as int), long),
            decreases config.games.len() - k,
        {
            let g = &config.games[k];
            let ghost before = text_lines(out@);
            let ghost gv = g@;
            assert(config.games@.take(k + 1).drop_last() =~= config.games@.take(k as int));
            assert(config.games@.take(k + 1).last() == config.games@[k as int]);
            push_line(&mut out, prefixed("Game ID: ", g.id.as_str()));
            if long {
                push_line(&mut out, prefixed("Name: ", g.name.as_str()));
                let comment = match &g.comment {
                    Some(c) => prefixed("Comment: ", c.as_str()),
                    None => prefixed("Comment: ", ""),
                };
                proof {
                    reveal_strlit("");
                }
                push_line(&mut out, comment);
            }
            push_line(&mut out, "Saves and configuration paths:".to_string());
            let ghost head = text_lines(out@);
            assert(head == before + (if long {
                seq![
                    "Game ID: "@ + gv.id,
                    "Name: "@ + gv.name,
                    "Comment: "@ + match gv.comment { Some(c) => c, None => Seq::empty() },
                    "Saves and configuration paths:"@,
                ]
            } else {
                seq!["Game ID: "@ + gv.id, "Saves and configuration paths:"@]
            })) by {
                if long {
                    assert(head =~= before + seq![
                        "Game ID: "@ + gv.id,
                        "Name: "@ + gv.name,
                        "Comment: "@ + match gv.comment { Some(c) => c, None => Seq::empty() },
                        "Saves and configuration paths:"@,
                    ]);
                } else {
                    assert(head =~= before + seq!["Game ID: "@ + gv.id, "Saves and configuration paths:"@]);
                }
            }
            let mut p: usize = 0;
            while p < g.paths.len()
                invariant
                    long == *request.long,
                    gv == g@,
                    p <= g.paths@.len(),
                    text_lines(out@) == head + path_lines(gv.paths.take(p as int), long),
                decreases g.paths.len() - p,
            {
                assert(gv.paths.take(p + 1).drop_last() =~= gv.paths.take(p as int));
                assert(gv.paths.take(p + 1).last() == g.paths@[p as int]@);
                let line = if long {
                    prefixed("\t- ", g.paths[p].as_str())
                } else {
                    match crate::paths::get_file_name(g.paths[p].as_str()) {
                        Some(n) => prefixed("\t- ", n.as_str()),
                        None => prefixed("\t- ", ""),
                    }
                };
                proof {
                    reveal_strlit("");
                }
                let ghost mid = text_lines(out@);
                push_line(&mut out, line);
                assert(text_lines(out@) =~= head + path_lines(gv.paths.take(p + 1), long));
                p = p + 1;
            }
            assert(gv.paths.take(g.paths.len() as int) =~= gv.paths);
            push_line(&mut out, String::new());
            assert(text_lines(out@) =~= games_lines(config.games@.take(k + 1), long));
            k = k + 1;
        }
        assert(config.games@.take(config.games.len() as int) =~= config.games@);
        out
    }

    /// Removes the game with the request's id; `GameNotFound` when there is
    /// none. Archives are never touched here.
    pub fn rm_game(config: &mut VaultConfig, request: &RmGameRequest) -> (r: Result<(), KaguyaError>)
        ensures
            removed(old(config).games@, final(config).games@, request.id@, r),
    {
        let key = request.id.to_string();
        let ghost orig = config.games@;
        let mut found = false;
        let mut i: usize = 0;
        let ghost mut j: int = 0;
        assert(orig.skip(0) =~= orig);
        assert(orig.take(0) =~= Seq::<GameConfig>::empty());
        while i < config.games.len()
            invariant
                key@ == request.id@,
                orig == old(config).games@,
                0 <= j <= orig.len(),
                config.games@ == without_id(orig.take(j), request.id@) + orig.skip(j),
                i == without_id(orig.take(j), request.id@).len(),
                found <==> has_id(orig.take(j), request.id@),
            decreases orig.len() - j,
        {
            let ghost pre = orig.take(j);
            assert(orig.take(j + 1).drop_last() =~= pre);
            assert(orig.take(j + 1).last() == orig[j]);
            assert(config.games@[i as int] == orig[j]);
            if config.games[i].id == key {
                found = true;
                let ghost before = config.games@;
                config.games.remove(i);
                assert(config.games@ =~= without_id(orig.take(j + 1), request.id@) + orig.skip(j + 1));
            } else {
                i = i + 1;
                assert(config.games@ =~= without_id(orig.take(j + 1), request.id@) + orig.skip(j + 1));
            }
            proof {
                if has_id(orig.take(j + 1), request.id@) {
                    let k = choose|k: int| 0 <= k < j + 1 && (#[trigger] orig.take(j + 1)[k]).id@ == request.id@;
                    if k < j {
                        assert(pre[k].id@ == request.id@);
                    }
                }
                if has_id(pre, request.id@) {
                    let k = choose|k: int| 0 <= k < j && (#[trigger] pre[k]).id@ == request.id@;
                    assert(orig.take(j + 1)[k].id@ == request.id@);
                }
                j = j + 1;
            }
        }
        assert(orig.take(j) =~= orig);
        assert(orig.skip(j) =~= Seq::<GameConfig>::empty());
        assert(config.games@ =~= without_id(orig, request.id@));
        if !found {
            proof {
                lemma_without_absent(orig, request.id@);
            }
            return Err(KaguyaError::GameNotFound(key));
        }
        Ok(())
    }
}



/// Each path rewritten by `expand_text` (when `expand`) or `shrink_text`.
pub open spec fn rewritten(paths: Seq<Seq<char>>, home: Seq<char>, expand: bool) -> Seq<Seq<char>> {
    paths.map_values(|p: Seq<char>| if expand {
        crate::paths::expand_text(p, home)
    } else {
        crate::paths::shrink_text(p, home)
    })
}

fn rewrite_paths(paths: &Vec<String>, home: &str, expand: bool) -> (r: Vec<String>)
    ensures
        r.deep_view() == rewritten(paths.deep_view(), home@, expand),
{
    let mut out: Vec<String> = Vec::new();
    let mut i: usize = 0;
    while i < paths.len()
        invariant
            i <= paths@.len(),
            out.deep_view() == rewritten(paths.deep_view().take(i as int), home@, expand),
        decreases paths.len() - i,
    {
        let p = if expand {
            crate::paths::expand_path(paths[i].as_str(), home)
        } else {
            crate::paths::shrink_path(paths[i].as_str(), home)
        };
        let ghost before = out.deep_view();
        out.push(p);
        assert(out.deep_view() =~= rewritten(paths.deep_view().take(i + 1), home@, expand)) by {
            assert(out.deep_view() =~= before.push(p@));
        }
        i = i + 1;
    }
    assert(paths.deep_view().take(paths.len() as int) =~= paths.deep_view());
    out
}

impl VaultConfig {
    fn rewrite_all(&mut self, home: &str, expand: bool)
        ensures
            final(self).games@.len() == old(self).games@.len(),
            forall|i: int| 0 <= i < old(self).games@.len() ==> {
                let (o, n) = (old(self).games@[i]@, #[trigger] final(self).games@[i]@);
                &&& n.id == o.id && n.name == o.name && n.comment == o.comment && n.keep_versions == o.keep_versions
                &&& n.paths == rewritten(o.paths, home@, expand)
            },
    {
        let ghost orig = self.games@;
        let mut i: usize = 0;
        while i < self.games.len()
            invariant
                orig == old(self).games@,
                self.games@.len() == orig.len(),
                i <= orig.len(),
                forall|k: int| i <= k < orig.len() ==> #[trigger] self.games@[k] == orig[k],
                forall|k: int| 0 <= k < i ==> {
                    let (o, n) = (orig[k]@, #[trigger] self.games@[k]@);
                    &&& n.id == o.id && n.name == o.name && n.comment == o.comment && n.keep_versions == o.keep_versions
                    &&& n.paths == rewritten(o.paths, home@, expand)
                },
            decreases orig.len() - i,
        {
            let new_paths = rewrite_paths(&self.games[i].paths, home, expand);
            self.games[i].paths = new_paths;
            i = i + 1;
        }
    }

    /// Expands the home placeholder in every path (after loading).
    pub fn expand_paths(&mut self, home: &str)
        ensures
            final(self).games@.len() == old(self).games@.len(),
            forall|i: int| 0 <= i < old(self).games@.len() ==> {
                let (o, n) = (old(self).games@[i]@, #[trigger] final(self).games@[i]@);
                &&& n.id == o.id && n.name == o.name && n.comment == o.comment && n.keep_versions == o.keep_versions
                &&& n.paths == rewritten(o.paths, home@, true)
            },
    {
        self.rewrite_all(home, true)
    }

    /// Replaces a leading home directory by the placeholder in every path
    /// (before saving).
    pub fn shrink_paths(&mut self, home: &str)
        ensures
            final(self).games@.len() == old(self).games@.len(),
            forall|i: int| 0 <= i < old(self).games@.len() ==> {
                let (o, n) = (old(self).games@[i]@, #[trigger] final(self).games@[i]@);
                &&& n.id == o.id && n.name == o.name && n.comment == o.comment && n.keep_versions == o.keep_versions
                &&& n.paths == rewritten(o.paths, home@, false)
            },
    {
        self.rewrite_all(home, false)
    }
}

} // verus!
