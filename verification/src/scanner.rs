//! Scan-side decisions: the hashing mode, the scanned-item record the
//! walker produces, and the exclusion rules (glob patterns and hidden
//! entries) that decide which paths are visited.

use vstd::prelude::*;
use crate::paths::hidden_path;
use crate::strutil::{lower_char, str_eq, to_lower};

verus! {

/// How much of a file's content the scanner hashes.
pub enum HashMode {
    Off,
    Fast,
    Full,
}

impl HashMode {
    /// Parses the configured mode name, case-insensitively; anything but
    /// `fast` and `full` means no hashing.
    pub fn from(s: &str) -> (r: HashMode)
        ensures
            s@.map(|i: int, c: char| lower_char(c)) == "fast"@ ==> r is Fast,
            s@.map(|i: int, c: char| lower_char(c)) == "full"@ ==> r is Full,
            s@.map(|i: int, c: char| lower_char(c)) != "fast"@
                && s@.map(|i: int, c: char| lower_char(c)) != "full"@ ==> r is Off,
    {
        let low = to_lower(s);
        proof {
            reveal_strlit("fast");
            reveal_strlit("full");
            assert(("fast"@)[1] == 'a');
            assert(("full"@)[1] == 'u');
        }
        if str_eq(low.as_str(), "fast") {
            HashMode::Fast
        } else if str_eq(low.as_str(), "full") {
            HashMode::Full
        } else {
            HashMode::Off
        }
    }
}

/// One entry the walker found: its path, kind, size, mtime and (when
/// hashing is on) content hash.
pub struct ScannedItem {
    pub path: String,
    pub is_dir: bool,
    pub size: i64,
    pub mtime: i64,
    pub hash: Option<String>,
}

#[verifier::external_type_specification]
#[verifier::external_body]
pub struct ExGlobSet(globset::GlobSet);

/// The glob patterns a compiled set was built from.
pub uninterp spec fn globset_view(gs: globset::GlobSet) -> Seq<Seq<char>>;

/// Whether any of the patterns matches the path.
pub uninterp spec fn glob_match(patterns: Seq<Seq<char>>, path: Seq<char>) -> bool;

/// Relies on `globset::GlobSetBuilder` and `globset::Glob::new`: compiles
/// the given patterns into a set; a malformed pattern yields `None`.
#[verifier::external_body]
pub fn build_globset(patterns: &Vec<String>) -> (r: Option<globset::GlobSet>)
    ensures
        r matches Some(gs) ==> globset_view(gs)
            == patterns@.map(|i: int, s: String| s@),
{
    let mut builder = globset::GlobSetBuilder::new();
    for pat in patterns {
        match globset::Glob::new(pat) {
            Ok(g) => {
                builder.add(g);
            }
            Err(_) => {
                return None;
            }
        }
    }
    builder.build().ok()
}

/// Relies on `globset::GlobSet::is_match`: whether any pattern of the
/// set matches the path; a function of the patterns and the path.
#[verifier::external_body]
pub fn glob_is_match(gs: &globset::GlobSet, path: &str) -> (r: bool)
    ensures
        r == glob_match(globset_view(*gs), path@),
{
    gs.is_match(path)
}

/// Whether a path falls under one of the exclusion patterns.
pub fn is_excluded(path: &str, excludes: &globset::GlobSet) -> (r: bool)
    ensures
        r == glob_match(globset_view(*excludes), path@),
{
    glob_is_match(excludes, path)
}

/// Whether the walker should enter a path: not excluded, and not hidden
/// unless hidden entries were asked for.
pub fn should_descend(path: &str, include_hidden: bool, excludes: &globset::GlobSet)
    -> (r: bool)
    ensures
        r == (!glob_match(globset_view(*excludes), path@)
            && (include_hidden || !hidden_path(path@))),
{
    if is_excluded(path, excludes) {
        return false;
    }
    if !include_hidden && crate::paths::is_hidden(path) {
        return false;
    }
    true
}

} // verus!
