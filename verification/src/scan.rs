//! Which entries of a vault folder the scan reads.
use vstd::prelude::*;
use crate::manager::{has_md_extension, md_extension};

verus! {

/// What the scan of a vault does with an entry of a folder.
#[derive(Debug, Clone, Copy, PartialEq, Eq, Structural)]
pub enum ScanEntry {
    /// Left out: a dot file (unless dot files are read), an ignored path, or a file
    /// without the `md` extension.
    Skip,
    /// A folder to scan in turn.
    Folder,
    /// A Markdown file to read.
    MarkdownFile,
}

/// What the scan does with the entry named `name`, a folder when `is_dir`, whose path
/// is on the ignored list when `ignored`.
pub open spec fn scan_entry_spec(name: Seq<char>, is_dir: bool, ignored: bool, parse_dot_files: bool) -> ScanEntry {
    if !parse_dot_files && name.len() > 0 && name[0] == '.' {
        ScanEntry::Skip
    } else if ignored {
        ScanEntry::Skip
    } else if is_dir {
        ScanEntry::Folder
    } else if has_md_extension(name) {
        ScanEntry::MarkdownFile
    } else {
        ScanEntry::Skip
    }
}

/// What the scan does with the entry named `name`; see `scan_entry_spec`.
pub fn scan_entry(name: &str, is_dir: bool, ignored: bool, parse_dot_files: bool) -> (r: ScanEntry)
    ensures
        r == scan_entry_spec(name@, is_dir, ignored, parse_dot_files),
{
    let cs = crate::text::chars_of(name);
    if !parse_dot_files && cs.len() > 0 && cs[0] == '.' {
        ScanEntry::Skip
    } else if ignored {
        ScanEntry::Skip
    } else if is_dir {
        ScanEntry::Folder
    } else if md_extension(name) {
        ScanEntry::MarkdownFile
    } else {
        ScanEntry::Skip
    }
}

} // verus!
