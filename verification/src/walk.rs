//! The trusted boundary: the outside calls a scan makes. Everything here
//! either resolves the home directory, tests that a path exists, or reads
//! the next entry of a directory walk; each result depends on the machine
//! and the disk, so nothing is promised of the values handed back, and the
//! verified scan states what holds of its result whatever came back.

use vstd::prelude::*;

use crate::entries::RawEntry;

verus! {

/// What one step of the walk yields: the walk is over, an unreadable entry
/// was skipped, or an entry was read.
pub enum WalkStep {
    Done,
    Skipped,
    Read(RawEntry),
}

/// Relies on dirs::home_dir: the current user's home directory, or `None`
/// when it cannot be determined. The value depends on the environment, so
/// nothing is promised of it.
#[verifier::external_body]
pub(crate) fn home_dir_path() -> Option<String> {
    dirs::home_dir().map(|p| p.to_string_lossy().to_string())
}

/// Relies on std::path::Path::exists: whether the path points at an entry
/// that exists on the filesystem. The answer depends on the disk, so
/// nothing is promised of it.
#[verifier::external_body]
pub(crate) fn path_exists(path: &str) -> bool {
    std::path::Path::new(path).exists()
}

#[verifier::external_type_specification]
#[verifier::external_body]
pub struct ExWalkdirIntoIter(walkdir::IntoIter);

#[verifier::external_type_specification]
#[verifier::external_body]
pub struct ExWalkdirDirEntry(walkdir::DirEntry);

#[verifier::external_type_specification]
#[verifier::external_body]
pub struct ExWalkdirError(walkdir::Error);

/// Relies on walkdir::WalkDir: a walker over the tree rooted at `root`,
/// depth first and without following symbolic links, whose order of
/// entries is unspecified.
#[verifier::external_body]
pub(crate) fn walker_new(root: &str) -> walkdir::IntoIter {
    walkdir::WalkDir::new(root).into_iter()
}

/// Relies on walkdir::IntoIter::next (the Iterator impl): the walk's next
/// entry, its base name, full path and file type projected to plain
/// values; an unreadable entry is reported as skipped. The entries depend
/// on the disk, so nothing is promised of them.
#[verifier::external_body]
pub(crate) fn walker_next(walker: &mut walkdir::IntoIter) -> WalkStep {
    match walker.next() {
        None => WalkStep::Done,
        Some(Err(_)) => WalkStep::Skipped,
        Some(Ok(entry)) => WalkStep::Read(
            RawEntry {
                name: entry.file_name().to_str().map(|s| s.to_string()),
                path: entry.path().to_string_lossy().to_string(),
                is_file: entry.file_type().is_file(),
            },
        ),
    }
}

} // verus!
