//! The path resolver: anchoring each pattern at the invoking build unit.
//!
//! A pattern that is already absolute is used verbatim; otherwise it is
//! joined onto the build unit's directory, and if that join is still not
//! absolute, the join is itself joined onto the process working directory.
//! The candidate is then normalized — `/./` segments collapsed, trailing
//! separators stripped — so that a pattern written as `./fixture` or
//! `fixture/` names the same base directory as `fixture`. No existence
//! check happens here: non-existent paths surface later, at enumeration
//! time. Only a candidate that is still not absolute after the
//! working-directory fallback is a resolution error.

use vstd::prelude::*;
use crate::error::{Error, ErrorModel};
use crate::path_text::{
    is_absolute, join, normalize_path, text_is_absolute, text_join, text_normalize,
};

verus! {

/// The absolute base path a pattern resolves to. Enumeration walks it (or,
/// for a glob pattern, its fixed prefix directory) and relative names are
/// anchored at it.
#[derive(Debug, Clone, PartialEq, Eq)]
pub struct ResolvedBase {
    pub path: String,
}

impl View for ResolvedBase {
    type V = Seq<char>;

    open spec fn view(&self) -> Seq<char> {
        self.path@
    }
}

/// The raw candidate path for a pattern: the pattern verbatim if absolute,
/// else joined onto the unit directory, else that join joined onto the
/// working directory.
pub open spec fn raw_candidate(pattern: Seq<char>, unit_dir: Seq<char>, cwd: Seq<char>)
    -> Seq<char> {
    if is_absolute(pattern) {
        pattern
    } else if is_absolute(join(unit_dir, pattern)) {
        join(unit_dir, pattern)
    } else {
        join(cwd, join(unit_dir, pattern))
    }
}

/// The base path a pattern resolves to: the raw candidate, normalized.
pub open spec fn resolve_candidate(pattern: Seq<char>, unit_dir: Seq<char>, cwd: Seq<char>)
    -> Seq<char> {
    normalize_path(raw_candidate(pattern, unit_dir, cwd))
}

/// Resolves a pattern to an absolute base path, or reports a resolution
/// error exactly when even the working-directory fallback yields a
/// non-absolute candidate.
pub fn resolve(pattern: &String, unit_dir: &String, cwd: &String) -> (r: Result<
    ResolvedBase,
    Error,
>)
    ensures
        match r {
            Ok(base) => {
                &&& base@ == resolve_candidate(pattern@, unit_dir@, cwd@)
                &&& is_absolute(base@)
            },
            Err(e) => {
                &&& e@ == ErrorModel::Resolution { pattern: pattern@ }
                &&& !is_absolute(resolve_candidate(pattern@, unit_dir@, cwd@))
            },
        },
{
    let raw = if text_is_absolute(pattern.as_str()) {
        pattern.clone()
    } else {
        let joined = text_join(unit_dir.as_str(), pattern.as_str());
        if text_is_absolute(joined.as_str()) {
            joined
        } else {
            text_join(cwd.as_str(), joined.as_str())
        }
    };
    let normalized = text_normalize(raw.as_str());
    if text_is_absolute(normalized.as_str()) {
        Ok(ResolvedBase { path: normalized })
    } else {
        Err(Error::ResolutionError { pattern: pattern.clone() })
    }
}

} // verus!
