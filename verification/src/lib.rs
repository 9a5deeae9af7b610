//! Vault scanning library.
//!
//! Given a root directory (a "vault") resolved under the user's home
//! directory, the scanner walks the tree below it, keeps the regular files
//! whose name carries the markdown suffix, prunes hidden entries (names
//! starting with a dot) at every depth, and returns the matches sorted by
//! their path relative to the root.
//!
//! The directory walk itself, home-directory resolution, and the existence
//! test are outside calls; everything decided about their results — which
//! entries are kept, how relative paths are derived, the fallback when
//! prefix-stripping fails, and the final ordering — is verified.

pub mod entries;
pub mod paths;
pub mod scan;
pub mod sorting;
pub mod walk;
