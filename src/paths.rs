//! Path text: joining, final components, and the home-directory placeholder
//! that keeps the config portable across machines.
use vstd::prelude::*;

verus! {

/// The final component of a path as the platform's path rules see it
/// (`None` for a root, an empty path, or one ending in `..`).
pub uninterp spec fn file_name_of(path: Seq<char>) -> Option<Seq<char>>;

/// The path without its final component, as the platform's path rules see
/// it (`None` for a root or an empty path).
pub uninterp spec fn parent_of(path: Seq<char>) -> Option<Seq<char>>;

pub open spec fn opt_text(o: Option<String>) -> Option<Seq<char>> {
    match o {
        Some(s) => Some(s@),
        None => None,
    }
}

/// Relies on `std::path::Path::file_name`: the final component of `path`,
/// converted to text.
#[verifier::external_body]
pub fn get_file_name(path: &str) -> (r: Option<String>)
    ensures
        opt_text(r) == file_name_of(path@),
{
    std::path::Path::new(path).file_name().map(|f| f.to_string_lossy().to_string())
}

/// Relies on `std::path::Path::parent`: `path` without its final component,
/// converted to text.
#[verifier::external_body]
pub(crate) fn parent_path(path: &str) -> (r: Option<String>)
    ensures
        opt_text(r) == parent_of(path@),
{
    std::path::Path::new(path).parent().map(|p| p.to_string_lossy().to_string())
}

/// `rel` appended to `base` with one separator between them; `rel` is a
/// relative path.
pub open spec fn join_text(base: Seq<char>, rel: Seq<char>) -> Seq<char> {
    if base.len() == 0 {
        rel
    } else if base.last() == '/' {
        base + rel
    } else {
        base + seq!['/'] + rel
    }
}

/// Joins a relative path onto a base path.
pub fn join_path(base: &str, rel: &str) -> (r: String)
    ensures
        r@ == join_text(base@, rel@),
{
    let n = base.unicode_len();
    if n == 0 {
        return rel.to_string();
    }
    let mut out = base.to_string();
    if base.get_char(n - 1) != '/' {
        out.append("/");
        proof {
            reveal_strlit("/");
        }
    }
    out.append(rel);
    out
}

/// The path with a leading `~` (alone, or followed by `/`) replaced by the
/// home directory.
pub open spec fn expand_text(path: Seq<char>, home: Seq<char>) -> Seq<char> {
    if path == seq!['~'] {
        home
    } else if path.len() >= 2 && path[0] == '~' && path[1] == '/' {
        home + path.skip(1)
    } else {
        path
    }
}

/// The path with a leading home directory (followed by `/` or nothing)
/// replaced by `~`.
pub open spec fn shrink_text(path: Seq<char>, home: Seq<char>) -> Seq<char> {
    if home.len() > 0 && path == home {
        seq!['~']
    } else if home.len() > 0 && path.len() > home.len() && path.take(home.len() as int) == home
        && path[home.len() as int] == '/' {
        seq!['~'] + path.skip(home.len() as int)
    } else {
        path
    }
}

/// Whether `prefix` begins `s`.
fn starts_with_text(s: &str, prefix: &str) -> (r: bool)
    ensures
        r == (prefix@.len() <= s@.len() && s@.take(prefix@.len() as int) == prefix@),
{
    let ls = s.unicode_len();
    let lp = prefix.unicode_len();
    if lp > ls {
        return false;
    }
    let mut i: usize = 0;
    while i < lp
        invariant
            lp == prefix@.len(),
            ls == s@.len(),
            lp <= ls,
            i <= lp,
            forall|k: int| 0 <= k < i ==> s@[k] == prefix@[k],
        decreases lp - i,
    {
        if s.get_char(i) != prefix.get_char(i) {
            assert(s@.take(lp as int)[i as int] != prefix@[i as int]);
            return false;
        }
        i = i + 1;
    }
    assert(s@.take(lp as int) =~= prefix@);
    true
}

/// Expands a leading `~` to the home directory (done when the config is
/// loaded).
pub fn expand_path(path: &str, home: &str) -> (r: String)
    ensures
        r@ == expand_text(path@, home@),
{
    proof {
        reveal_strlit("~");
    }
    let n = path.unicode_len();
    if n == 1 && path.get_char(0) == '~' {
        assert(path@ =~= seq!['~']);
        return home.to_string();
    }
    if n >= 2 && path.get_char(0) == '~' && path.get_char(1) == '/' {
        let mut out = home.to_string();
        out.append(path.substring_char(1, n));
        assert(path@ != seq!['~']);
        return out;
    }
    proof {
        if path@ == seq!['~'] {
            assert(path@.len() == 1 && path@[0] == '~');
        }
    }
    path.to_string()
}

/// Replaces a leading home directory by `~` (done when the config is saved).
pub fn shrink_path(path: &str, home: &str) -> (r: String)
    ensures
        r@ == shrink_text(path@, home@),
{
    let n = path.unicode_len();
    let h = home.unicode_len();
    if h > 0 && starts_with_text(path, home) {
        if n == h {
            assert(path@ =~= home@) by {
                assert(path@.take(h as int) =~= path@);
            }
            let mut out = String::new();
            out.append("~");
            proof {
                reveal_strlit("~");
                assert(out@ =~= seq!['~']);
            }
            return out;
        }
        if path.get_char(h) == '/' {
            let mut out = String::new();
            out.append("~");
            out.append(path.substring_char(h, n));
            proof {
                reveal_strlit("~");
                assert(path@ != home@);
                assert(out@ =~= seq!['~'] + path@.skip(h as int));
            }
            return out;
        }
    }
    proof {
        if h > 0 && path@ == home@ {
            assert(path@.take(h as int) =~= home@);
        }
    }
    path.to_string()
}

/// A path stored in portable form reads back as the same absolute path: for
/// an absolute home directory and a path that does not itself start with
/// `~`, expanding the shrunk path gives the path again.
pub proof fn lemma_portable_round_trip(path: Seq<char>, home: Seq<char>)
    requires
        home.len() > 0,
        home[0] == '/',
        !(path.len() > 0 && path[0] == '~'),
    ensures
        expand_text(shrink_text(path, home), home) == path,
{
    let s = shrink_text(path, home);
    if home.len() > 0 && path == home {
        assert(s == seq!['~']);
    } else if home.len() > 0 && path.len() > home.len() && path.take(home.len() as int) == home
        && path[home.len() as int] == '/' {
        assert(s.len() >= 2 && s[0] == '~' && s[1] == '/');
        assert(s != seq!['~']);
        assert(home + s.skip(1) =~= path) by {
            assert(s.skip(1) =~= path.skip(home.len() as int));
            assert(path =~= path.take(home.len() as int) + path.skip(home.len() as int));
        }
    } else {
        assert(s == path);
        if path == seq!['~'] {
            assert(path[0] == '~');
        }
    }
}

} // verus!
