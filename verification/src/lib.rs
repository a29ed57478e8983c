//! Build-time resource bundler core.
//!
//! Given a configuration of directory paths or glob patterns, the library
//! resolves each pattern against the invoking build unit's directory,
//! discovers the matching regular files in a snapshot of the filesystem,
//! and assembles an ordered, queryable table of (relative name, content)
//! pairs together with the list of files to register as build dependencies.
//!
//! All paths are platform-neutral strings with `/` as the separator; a path
//! is absolute exactly when it starts with `/`. Filesystem access itself is
//! left to the caller, who hands the pipeline a [`snapshot::FsSnapshot`]
//! holding the directories and regular files it observed, in traversal
//! order; the pipeline is a pure function of that snapshot.

pub mod enumerator;
pub mod error;
pub mod glob;
pub mod laws;
pub mod package;
pub mod path_resolver;
pub mod path_text;
pub mod pipeline;
pub mod snapshot;
pub mod spec_parser;
