//! The entry types: what one step of the directory walk reports, and what a
//! scan returns, together with the rules that decide which entries are kept.

use vstd::prelude::*;

use crate::paths::base_name;
use crate::paths::base_name_of;
use crate::paths::has_hidden_component;
use crate::paths::has_markdown_extension;
use crate::paths::is_markdown_name;
use crate::paths::strip_root;
use crate::paths::strip_root_prefix;

verus! {

/// What the walk reports of one entry: its base name (`None` when it cannot
/// be decoded as text), its full path in string form, and whether it is a
/// regular file.
#[derive(Debug, Clone, PartialEq, Eq)]
pub struct RawEntry {
    pub name: Option<String>,
    pub path: String,
    pub is_file: bool,
}

/// The mathematical shape of a raw entry.
pub struct RawEntryModel {
    pub name: Option<Seq<char>>,
    pub path: Seq<char>,
    pub is_file: bool,
}

impl View for RawEntry {
    type V = RawEntryModel;

    open spec fn view(&self) -> RawEntryModel {
        RawEntryModel { name: self.name.deep_view(), path: self.path@, is_file: self.is_file }
    }
}

impl DeepView for RawEntry {
    type V = RawEntryModel;

    open spec fn deep_view(&self) -> RawEntryModel {
        self@
    }
}

/// One match found by a scan: the file's base name, its full path, and its
/// path relative to the vault root.
#[derive(Debug, Clone, PartialEq, Eq)]
pub struct FileEntry {
    pub name: String,
    pub path: String,
    pub relative_path: String,
}

/// The mathematical shape of a returned entry.
pub struct FileEntryModel {
    pub name: Seq<char>,
    pub path: Seq<char>,
    pub relative_path: Seq<char>,
}

impl View for FileEntry {
    type V = FileEntryModel;

    open spec fn view(&self) -> FileEntryModel {
        FileEntryModel {
            name: self.name@,
            path: self.path@,
            relative_path: self.relative_path@,
        }
    }
}

impl DeepView for FileEntry {
    type V = FileEntryModel;

    open spec fn deep_view(&self) -> FileEntryModel {
        self@
    }
}

/// An entry's name as returned: the base name, or empty when it could not
/// be decoded.
pub open spec fn entry_name(e: RawEntryModel) -> Seq<char> {
    match e.name {
        Some(n) => n,
        None => Seq::empty(),
    }
}

/// An entry's relative path: its path with the root prefix stripped, and
/// its bare name as the fallback when the root is no prefix of the path.
pub open spec fn rel_path_of(root: Seq<char>, e: RawEntryModel) -> Seq<char> {
    match strip_root(e.path, root) {
        Some(r) => r,
        None => entry_name(e),
    }
}

/// An entry matches the filter when it is a regular file and its path's
/// base name carries the markdown extension.
pub open spec fn is_markdown_entry(e: RawEntryModel) -> bool {
    e.is_file && is_markdown_name(base_name_of(e.path))
}

/// Returns whether `entry` is a regular file with the markdown extension.
pub fn is_markdown_file(entry: &RawEntry) -> (r: bool)
    ensures
        r == is_markdown_entry(entry@),
{
    entry.is_file && has_markdown_extension(base_name(entry.path.as_str()).as_str())
}

/// An entry is kept when it is a markdown file and no component of its
/// relative path — an ancestor directory below the root, or the file's own
/// name — is hidden.
pub open spec fn included(root: Seq<char>, e: RawEntryModel) -> bool {
    is_markdown_entry(e) && !has_hidden_component(rel_path_of(root, e))
}

/// The descriptor a kept entry turns into.
pub open spec fn descriptor_of(root: Seq<char>, e: RawEntryModel) -> FileEntryModel {
    FileEntryModel {
        name: entry_name(e),
        path: e.path,
        relative_path: rel_path_of(root, e),
    }
}

/// Builds the descriptor for an entry under the given root.
pub fn descriptor(root: &str, entry: &RawEntry) -> (d: FileEntry)
    ensures
        d@ == descriptor_of(root@, entry@),
{
    let name: String = match &entry.name {
        Some(n) => n.clone(),
        None => String::new(),
    };
    let relative_path: String = match strip_root_prefix(entry.path.as_str(), root) {
        Some(r) => r,
        None => name.clone(),
    };
    FileEntry { name, path: entry.path.clone(), relative_path }
}

} // verus!
