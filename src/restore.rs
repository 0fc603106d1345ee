//! Restore: which paths a request covers, and the decisions of an atomic
//! restore (where to unpack, what to remove, what to rename).
use crate::backup::digit_char;
use crate::config::{find_game_index, first_index, has_id, VaultConfig};
use crate::error::KaguyaError;
use crate::index::IntegrityIndex;
use crate::paths::{file_name_of, get_file_name, join_path, join_text, parent_of, parent_path};
use rand::distr::SampleString;
use vstd::prelude::*;

verus! {

/// A request to restore a game, at a version or its latest backups, for
/// some or all of its paths.
#[derive(Debug)]
pub struct RestoreRequest<'a> {
    pub id: &'a str,
    pub version: Option<&'a str>,
    pub paths: Option<&'a Vec<String>>,
}

/// The game to restore (its internal id) and the paths to restore.
#[derive(Debug, Clone)]
pub struct RestoreTargets {
    pub game_id: i64,
    pub paths: Vec<String>,
}

/// Prefix of the temporary directory an archive is unpacked into.
pub const TEMP_DIR_PREFIX: &'static str = ".kaguya-restore";

/// What a restore request resolves to: the game must be configured and
/// indexed (`GameNotFound` otherwise); the paths are the requested ones, or
/// else all configured paths of the game.
pub open spec fn restore_outcome(
    games: Seq<crate::config::GameConfig>,
    m: crate::index::IndexModel,
    id: Seq<char>,
    paths: Option<Seq<Seq<char>>>,
    r: Result<RestoreTargets, KaguyaError>,
) -> bool {
    &&& r is Ok <==> has_id(games, id) && m.game_ids().contains(id)
    &&& r matches Ok(t) ==> {
        &&& t.game_id == m.games[m.game_pos(id)->0].row.id
        &&& t.paths.deep_view() == match paths {
            Some(ps) => ps,
            None => games[first_index(games, id)].paths.deep_view(),
        }
    }
    &&& r matches Err(e) ==> (e matches KaguyaError::GameNotFound(s) && s@ == id)
}

/// Resolves the game and paths of a restore request: the game must be
/// configured and indexed (`GameNotFound` otherwise); the paths are the
/// requested ones, or else all configured paths of the game.
pub fn restore_targets(config: &VaultConfig, index: &IntegrityIndex, request: &RestoreRequest) -> (r: Result<RestoreTargets, KaguyaError>)
    requires
        index@.wf(),
    ensures
        restore_outcome(config.games@, index@, request.id@, crate::backup::opt_paths_view(request.paths), r),
{
    let i = match find_game_index(config.games.as_slice(), request.id) {
        Some(i) => i,
        None => {
            return Err(KaguyaError::GameNotFound(request.id.to_string()));
        },
    };
    let game_id = index.find_internal_id(request.id)?;
    let paths = match request.paths {
        Some(ps) => ps.clone(),
        None => config.games[i].paths.clone(),
    };
    proof {
        match request.paths {
            Some(ps) => assert(paths.deep_view() =~= ps.deep_view()),
            None => assert(paths.deep_view() =~= config.games@[i as int].paths.deep_view()),
        }
    }
    Ok(RestoreTargets { game_id, paths })
}

/// Whether a character is an ASCII letter or digit.
pub open spec fn is_alphanumeric(c: char) -> bool {
    ('a' <= c && c <= 'z') || ('A' <= c && c <= 'Z') || ('0' <= c && c <= '9')
}

/// Relies on rand's `Alphanumeric` distribution (`SampleString`): `len`
/// characters, each an ASCII letter or digit, drawn from the thread's
/// generator.
#[verifier::external_body]
fn random_alphanumeric(len: usize) -> (r: String)
    ensures
        r@.len() == len,
        forall|i: int| 0 <= i < len ==> is_alphanumeric(#[trigger] r@[i]),
{
    rand::distr::Alphanumeric.sample_string(&mut rand::rng(), len)
}

/// `n` in decimal, without leading zeros.
pub open spec fn decimal_text(n: nat) -> Seq<char>
    decreases n,
{
    if n < 10 {
        seq![digit_char(n as int)]
    } else {
        decimal_text(n / 10) + seq![digit_char((n % 10) as int)]
    }
}

fn digit_str(d: u32) -> (r: &'static str)
    requires
        d < 10,
    ensures
        r@ == seq![digit_char(d as int)],
{
    proof {
        reveal_strlit("0");
        reveal_strlit("1");
        reveal_strlit("2");
        reveal_strlit("3");
        reveal_strlit("4");
        reveal_strlit("5");
        reveal_strlit("6");
        reveal_strlit("7");
        reveal_strlit("8");
        reveal_strlit("9");
    }
    let r = match d {
        0 => "0",
        1 => "1",
        2 => "2",
        3 => "3",
        4 => "4",
        5 => "5",
        6 => "6",
        7 => "7",
        8 => "8",
        _ => "9",
    };
    assert(r@ =~= seq![digit_char(d as int)]);
    r
}

/// `n` written in decimal.
pub fn decimal_string(n: u32) -> (r: String)
    ensures
        r@ == decimal_text(n as nat),
    decreases n,
{
    if n < 10 {
        digit_str(n).to_string()
    } else {
        let mut s = decimal_string(n / 10);
        s.append(digit_str(n % 10));
        s
    }
}

/// The temporary directory name of one restore: the prefix, the process id
/// and `rnd_str_len` random letters and digits, joined by `-`.
pub fn generate_unique_temp_name(prefix: &str, pid: u32, rnd_str_len: usize) -> (r: String)
    ensures
        r@.len() == prefix@.len() + 1 + decimal_text(pid as nat).len() + 1 + rnd_str_len,
        r@.take((prefix@.len() + 1 + decimal_text(pid as nat).len() + 1) as int)
            == prefix@ + seq!['-'] + decimal_text(pid as nat) + seq!['-'],
        forall|i: int| prefix@.len() + 1 + decimal_text(pid as nat).len() + 1 <= i < r@.len()
            ==> is_alphanumeric(#[trigger] r@[i]),
{
    proof {
        reveal_strlit("-");
    }
    let mut name = prefix.to_string();
    name.append("-");
    let pid_text = decimal_string(pid);
    name.append(pid_text.as_str());
    name.append("-");
    let ghost head = name@;
    let suffix = random_alphanumeric(rnd_str_len);
    name.append(suffix.as_str());
    proof {
        assert(head =~= prefix@ + seq!['-'] + decimal_text(pid as nat) + seq!['-']);
        assert(name@.take(head.len() as int) =~= head);
        assert forall|i: int| head.len() <= i < name@.len() implies is_alphanumeric(#[trigger] name@[i]) by {
            assert(name@[i] == suffix@[i - head.len()]);
        }
    }
    name
}

/// Where an atomic restore works: a temporary directory beside the
/// destination (same filesystem, so the final rename is atomic), and the
/// path at which the archive's top-level entry appears inside it.
#[derive(Debug, Clone)]
pub struct RestoreLayout {
    pub temp_dir: String,
    pub unpacked: String,
}

/// The layout of restoring into `dst` with a temporary directory named
/// `temp_name`; `InvalidInput` when `dst` has no parent or no final
/// component.
pub fn restore_layout(dst: &str, temp_name: &str) -> (r: Result<RestoreLayout, KaguyaError>)
    ensures
        r is Ok <==> parent_of(dst@) is Some && file_name_of(dst@) is Some,
        r matches Ok(l) ==> {
            &&& l.temp_dir@ == join_text(parent_of(dst@)->0, temp_name@)
            &&& l.unpacked@ == join_text(l.temp_dir@, file_name_of(dst@)->0)
        },
        r matches Err(e) ==> e is InvalidInput,
{
    let parent = match parent_path(dst) {
        Some(p) => p,
        None => {
            return Err(KaguyaError::InvalidInput(dst.to_string()));
        },
    };
    let temp_dir = join_path(parent.as_str(), temp_name);
    let name = match get_file_name(dst) {
        Some(n) => n,
        None => {
            return Err(KaguyaError::InvalidInput(dst.to_string()));
        },
    };
    let unpacked = join_path(temp_dir.as_str(), name.as_str());
    Ok(RestoreLayout { temp_dir, unpacked })
}

/// What is at the destination before the unpacked entry is moved there.
#[derive(Debug, Clone, Copy, PartialEq, Eq)]
pub enum EntryKind {
    Missing,
    File,
    Directory,
    Other,
}

/// How the current destination is cleared before the rename.
#[derive(Debug, Clone, Copy, PartialEq, Eq)]
pub enum Removal {
    /// Nothing to remove.
    Nothing,
    /// Remove a file.
    RemoveFile,
    /// Remove a directory with all its contents.
    RemoveDirAll,
}

/// A directory is removed recursively, a file directly, nothing when
/// nothing is there; any other kind of entry is an error.
pub fn removal_for(kind: EntryKind) -> (r: Result<Removal, KaguyaError>)
    ensures
        kind == EntryKind::Missing ==> r == Ok::<Removal, KaguyaError>(Removal::Nothing),
        kind == EntryKind::File ==> r == Ok::<Removal, KaguyaError>(Removal::RemoveFile),
        kind == EntryKind::Directory ==> r == Ok::<Removal, KaguyaError>(Removal::RemoveDirAll),
        kind == EntryKind::Other ==> r matches Err(KaguyaError::InvalidInput(_)),
{
    match kind {
        EntryKind::Missing => Ok(Removal::Nothing),
        EntryKind::File => Ok(Removal::RemoveFile),
        EntryKind::Directory => Ok(Removal::RemoveDirAll),
        EntryKind::Other => Err(KaguyaError::InvalidInput("not a file or directory".to_string())),
    }
}

} // verus!
