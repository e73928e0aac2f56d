//! The decisions of a glob walk: which directories may still hold matches
//! and which entries are reported. The walking itself — reading directories
//! — is left to the caller; these functions decide, from paths and pattern
//! lists alone, what the walk does with each entry.

use vstd::prelude::*;

verus! {

/// What a glob walk yields: files, folders, or both.
#[derive(Clone, Copy, Debug, PartialEq, Eq, Structural)]
pub enum WalkType {
    Files,
    Folders,
    All,
}

/// What `glob_match::glob_match` returns on a pattern and a path. The
/// result is a function of the two strings alone.
pub uninterp spec fn glob_matches(glob: Seq<char>, path: Seq<char>) -> bool;

/// Relies on `glob_match::glob_match`: whether the glob pattern matches the
/// path.
#[verifier::external_body]
fn glob_match_str(glob: &str, path: &str) -> (r: bool)
    ensures
        r == glob_matches(glob@, path@),
{
    glob_match::glob_match(glob, path)
}

/// The position of the last `/` of the glob, or a negative value if it has
/// none.
pub open spec fn last_slash(glob: Seq<char>) -> int
    decreases glob.len(),
{
    if glob.len() == 0 {
        -1
    } else if glob[glob.len() - 1] == '/' {
        glob.len() - 1
    } else {
        last_slash(glob.drop_last())
    }
}

proof fn lemma_last_slash_bounds(glob: Seq<char>)
    ensures
        -1 <= last_slash(glob) < glob.len(),
    decreases glob.len(),
{
    if glob.len() > 0 && glob[glob.len() - 1] != '/' {
        lemma_last_slash_bounds(glob.drop_last());
    }
}

/// Whether a path is a partial match for a glob — a subfolder of it could
/// match: the glob matches it, or keeps doing so after dropping its last
/// chunk, repeatedly.
pub open spec fn potentially_matches(glob: Seq<char>, path: Seq<char>) -> bool
    decreases glob.len() via potentially_matches_decreases
{
    ||| glob_matches(glob, path)
    ||| (last_slash(glob) >= 0 && potentially_matches(glob.subrange(0, last_slash(glob)), path))
}

#[via_fn]
proof fn potentially_matches_decreases(glob: Seq<char>, path: Seq<char>) {
    lemma_last_slash_bounds(glob);
}

proof fn lemma_last_slash_at(glob: Seq<char>, k: int)
    requires
        0 <= k < glob.len(),
        glob[k] == '/',
        forall|j: int| k < j < glob.len() ==> glob[j] != '/',
    ensures
        last_slash(glob) == k,
    decreases glob.len(),
{
    if k < glob.len() - 1 {
        lemma_last_slash_at(glob.drop_last(), k);
    }
}

proof fn lemma_last_slash_none(glob: Seq<char>)
    requires
        forall|j: int| 0 <= j < glob.len() ==> glob[j] != '/',
    ensures
        last_slash(glob) < 0,
    decreases glob.len(),
{
    if glob.len() > 0 {
        lemma_last_slash_none(glob.drop_last());
    }
}

/// Checks if a path is a partial match for a glob, meaning that a subfolder
/// could match: the glob matches, or a prefix of it obtained by dropping
/// the last `/`-separated chunk does.
pub fn potential_match(path: &str, glob: &str) -> (r: bool)
    ensures
        r == potentially_matches(glob@, path@),
    decreases glob@.len(),
{
    if glob_match_str(glob, path) {
        return true;
    }
    let v = crate::identifiers::to_chars(glob);
    let n = v.len();
    let mut k: usize = n;
    while k > 0
        invariant
            0 <= k <= n == v@.len(),
            v@ == glob@,
            !glob_matches(glob@, path@),
            forall|j: int| k <= j < n ==> v@[j] != '/',
        decreases k,
    {
        k = k - 1;
        if v[k] == '/' {
            proof {
                lemma_last_slash_at(glob@, k as int);
            }
            let prefix = glob.substring_char(0, k);
            return potential_match(path, prefix);
        }
    }
    proof {
        lemma_last_slash_none(glob@);
    }
    false
}

/// Whether some pattern of the inclusion list still has a potential match at or below
/// this path, and no exclusion pattern already matches it: the walk traverses
/// into exactly such directories.
pub fn should_traverse(path: &str, includes: &Vec<String>, excludes: &Vec<String>) -> (r: bool)
    ensures
        r == ((exists|i: int|
            0 <= i < includes@.len() && potentially_matches(
                (#[trigger] includes@[i])@,
                path@,
            )) && !(exists|j: int|
            0 <= j < excludes@.len() && glob_matches((#[trigger] excludes@[j])@, path@))),
{
    let mut any_inc = false;
    let n = includes.len();
    let mut i: usize = 0;
    while i < n
        invariant
            n == includes@.len(),
            0 <= i <= n,
            any_inc == exists|k: int|
                0 <= k < i && potentially_matches((#[trigger] includes@[k])@, path@),
        decreases n - i,
    {
        if potential_match(path, includes[i].as_str()) {
            proof {
                assert(potentially_matches(includes@[i as int]@, path@));
            }
            any_inc = true;
        }
        i = i + 1;
    }
    if !any_inc {
        return false;
    }
    !matches_any(path, excludes)
}

/// Whether some pattern of the list matches the path.
pub fn matches_any(path: &str, globs: &Vec<String>) -> (r: bool)
    ensures
        r == exists|j: int| 0 <= j < globs@.len() && glob_matches((#[trigger] globs@[j])@, path@),
{
    let n = globs.len();
    let mut j: usize = 0;
    while j < n
        invariant
            n == globs@.len(),
            0 <= j <= n,
            forall|k: int| 0 <= k < j ==> !glob_matches((#[trigger] globs@[k])@, path@),
        decreases n - j,
    {
        if glob_match_str(globs[j].as_str(), path) {
            proof {
                assert(glob_matches(globs@[j as int]@, path@));
            }
            return true;
        }
        j = j + 1;
    }
    false
}

/// Whether a file the walk reached is reported: it matches an inclusion
/// pattern and no exclusion pattern. With an empty inclusion list,
/// nothing is reported by this check.
pub fn file_included(path: &str, includes: &Vec<String>, excludes: &Vec<String>) -> (r: bool)
    ensures
        r == ((exists|i: int|
            0 <= i < includes@.len() && glob_matches((#[trigger] includes@[i])@, path@)) && !(exists|
            j: int,
        |
            0 <= j < excludes@.len() && glob_matches((#[trigger] excludes@[j])@, path@))),
{
    if !matches_any(path, includes) {
        return false;
    }
    !matches_any(path, excludes)
}

/// Whether a walked entry is reported, by the walk's type: a file must
/// match the patterns; a folder reached at all is reported, since excluded
/// folders are never traversed into.
pub fn entry_reported(
    walk_type: WalkType,
    is_file: bool,
    is_dir: bool,
    path: &str,
    includes: &Vec<String>,
    excludes: &Vec<String>,
) -> (r: bool)
    ensures
        r == (match walk_type {
            WalkType::Files => is_file && ((exists|i: int|
                0 <= i < includes@.len() && glob_matches(
                    (#[trigger] includes@[i])@,
                    path@,
                )) && !(exists|j: int|
                0 <= j < excludes@.len() && glob_matches((#[trigger] excludes@[j])@, path@))),
            WalkType::Folders => is_dir,
            WalkType::All => if is_file {
                (exists|i: int|
                    0 <= i < includes@.len() && glob_matches(
                        (#[trigger] includes@[i])@,
                        path@,
                    )) && !(exists|j: int|
                    0 <= j < excludes@.len() && glob_matches((#[trigger] excludes@[j])@, path@))
            } else {
                is_dir
            },
        }),
{
    match walk_type {
        WalkType::Files => is_file && file_included(path, includes, excludes),
        WalkType::Folders => is_dir,
        WalkType::All => if is_file {
            file_included(path, includes, excludes)
        } else {
            is_dir
        },
    }
}

} // verus!
