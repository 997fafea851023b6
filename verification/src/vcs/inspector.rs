//! How the index compares with the workspace and with a tree, one path at
//! a time.
use vstd::prelude::*;
use crate::text::str_eq;
use crate::numeral::octal;
use crate::vcs::index::entry::{Entry, FileStat};
use crate::vcs::database::entry::DatabaseEntry;
use crate::vcs::database::database::{Database, object_id};
use crate::vcs::file_mode::{modes_equivalent, mode_is_executable};

verus! {

/// A kind of difference of a path.
#[derive(Debug, Clone, Copy, PartialEq, Eq, Structural)]
pub enum ChangeType {
    Untracked,
    Modified,
    Added,
    Deleted,
}

/// What comparing an index entry with the workspace finds before reading
/// the file, or that the file must be read.
#[derive(Debug, Clone, Copy, PartialEq, Eq, Structural)]
pub enum Inspection {
    Found(Option<ChangeType>),
    ReadContent,
}

/// The comparisons of the repository's views of a path.
pub struct Inspector;

/// The mode of a workspace file, from its permissions.
pub open spec fn stat_mode(stat: FileStat) -> u32 {
    if mode_is_executable(stat.permissions) { 0o100755u32 } else { 0o100644u32 }
}

/// What comparing an index entry with the workspace finds first: a path
/// the index lacks is untracked, one the workspace lacks is deleted, a
/// different mode or size is a modification, agreeing times are no change,
/// and otherwise the content decides.
pub open spec fn inspect(entry: Option<Entry>, stat: Option<FileStat>) -> Inspection {
    match entry {
        None => Inspection::Found(Some(ChangeType::Untracked)),
        Some(e) => match stat {
            None => Inspection::Found(Some(ChangeType::Deleted)),
            Some(st) => if !modes_equivalent(e.mode, stat_mode(st)) || e.size as u64 != st.size {
                Inspection::Found(Some(ChangeType::Modified))
            } else if e.mtime == st.mtime as u32 && e.mtime_nsec == st.mtime_nsec {
                Inspection::Found(None)
            } else {
                Inspection::ReadContent
            },
        },
    }
}

impl Inspector {
    /// Compares an index entry with the workspace file's metadata.
    pub fn compare_index_to_workspace(entry: Option<&Entry>, stat: Option<&FileStat>) -> (r: Inspection)
        ensures
            r == inspect(match entry { Some(e) => Some(*e), None => None }, match stat { Some(s) => Some(*s), None => None }),
    {
        match entry {
            None => Inspection::Found(Some(ChangeType::Untracked)),
            Some(e) => match stat {
                None => Inspection::Found(Some(ChangeType::Deleted)),
                Some(st) => {
                    let file_mode = crate::vcs::file_mode::FileMode::from_metadata(false, st.permissions);
                    if !crate::vcs::file_mode::FileMode::are_equivalent(e.mode, file_mode) || (e.size as u64) != st.size {
                        Inspection::Found(Some(ChangeType::Modified))
                    } else if e.mtime == (st.mtime as u32) && e.mtime_nsec == st.mtime_nsec {
                        Inspection::Found(None)
                    } else {
                        Inspection::ReadContent
                    }
                },
            },
        }
    }

    /// Compares an index entry with the file's content: modified when a
    /// blob of it has another id.
    pub fn compare_content(entry: &Entry, database: &Database, data: &[u8]) -> (r: Option<ChangeType>)
        ensures
            r == (if object_id("blob"@, data@) != entry.oid@ { Some(ChangeType::Modified) } else { None }),
    {
        let oid = database.hash_file_data(data);
        if !str_eq(oid.as_str(), entry.oid.as_str()) {
            Some(ChangeType::Modified)
        } else {
            None
        }
    }

    /// Compares a tree entry with an index entry: deleted from the index,
    /// added to it, or modified when mode or id differ.
    pub fn compare_tree_to_index(item: Option<&DatabaseEntry>, entry: Option<&Entry>) -> (r: Option<ChangeType>)
        ensures
            r == match (item, entry) {
                (None, None) => None,
                (Some(_), None) => Some(ChangeType::Deleted),
                (None, Some(_)) => Some(ChangeType::Added),
                (Some(i), Some(e)) => if i.mode@ != octal(e.mode as nat) || i.oid@ != e.oid@ {
                    Some(ChangeType::Modified)
                } else {
                    None
                },
            },
    {
        match (item, entry) {
            (None, None) => None,
            (Some(_), None) => Some(ChangeType::Deleted),
            (None, Some(_)) => Some(ChangeType::Added),
            (Some(i), Some(e)) => {
                let mode = e.mode_octal();
                if !str_eq(i.get_mode(), mode.as_str()) || !str_eq(i.get_oid(), e.oid.as_str()) {
                    Some(ChangeType::Modified)
                } else {
                    None
                }
            },
        }
    }
}

} // verus!
