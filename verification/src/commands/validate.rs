//! Reporting on the health of a repository.
use vstd::prelude::*;
use crate::text::{texts, copy_str, concat};
use crate::errors::error::Error;

verus! {

/// Checks a repository and reports what it finds.
pub struct ValidateCommand;

/// How many objects of each kind the database holds.
#[derive(Debug, Clone, Copy)]
pub struct ObjectStats {
    pub total: u64,
    pub blobs: u64,
    pub trees: u64,
    pub commits: u64,
    pub unknown: u64,
}

/// What a check of the repository found.
pub struct ValidationReport {
    pub repo_path: String,
    pub ash_dirs_valid: bool,
    pub index_entries: u64,
    pub index_valid: bool,
    pub head_commit: Option<String>,
    pub object_stats: ObjectStats,
    pub issues: Vec<String>,
    pub is_valid: bool,
}

/// `Valid ✓` or `Invalid ✗`.
pub open spec fn validity(ok: bool) -> Seq<char> {
    if ok { "Valid ✓"@ } else { "Invalid ✗"@ }
}

impl ValidateCommand {
    /// What a report ends with: nothing for a valid repository, an error
    /// otherwise.
    pub fn outcome(report: &ValidationReport) -> (r: Result<(), Error>)
        ensures
            r is Ok <==> report.is_valid,
            r is Err ==> (r matches Err(Error::Generic(m)) && m@ == "Repository validation failed. See above for details."@),
    {
        if report.is_valid {
            Ok(())
        } else {
            Err(Error::Generic(copy_str("Repository validation failed. See above for details.")))
        }
    }

    /// The lines about the repository's structure, index and HEAD.
    pub fn state_lines(report: &ValidationReport, entries_text: &str) -> (r: Vec<String>)
        ensures
            texts(r@) == seq![
                "Repository path: "@ + report.repo_path@,
                "Repository structure: "@ + validity(report.ash_dirs_valid),
                "Index entries: "@ + entries_text@,
                "Index state: "@ + validity(report.index_valid),
                match report.head_commit {
                    Some(c) => "HEAD commit: "@ + c@,
                    None => "HEAD commit: None (no commits yet)"@,
                }
            ],
    {
        let mut r: Vec<String> = Vec::new();
        r.push(concat("Repository path: ", report.repo_path.as_str()));
        r.push(concat("Repository structure: ", if report.ash_dirs_valid { "Valid ✓" } else { "Invalid ✗" }));
        r.push(concat("Index entries: ", entries_text));
        r.push(concat("Index state: ", if report.index_valid { "Valid ✓" } else { "Invalid ✗" }));
        match &report.head_commit {
            Some(c) => r.push(concat("HEAD commit: ", c.as_str())),
            None => r.push(copy_str("HEAD commit: None (no commits yet)")),
        }
        assert(texts(r@) =~= seq![
            "Repository path: "@ + report.repo_path@,
            "Repository structure: "@ + validity(report.ash_dirs_valid),
            "Index entries: "@ + entries_text@,
            "Index state: "@ + validity(report.index_valid),
            match report.head_commit {
                Some(c) => "HEAD commit: "@ + c@,
                None => "HEAD commit: None (no commits yet)"@,
            }
        ]);
        r
    }

    /// The advice given for the issues found: re-initializing for a broken
    /// structure, re-adding files for a broken index.
    pub fn recommendations(report: &ValidationReport) -> (r: Vec<String>)
        ensures
            texts(r@) == (if report.ash_dirs_valid { Seq::<Seq<char>>::empty() } else {
                seq!["- Repository structure is invalid. Consider re-initializing with 'ash init'."@] })
                + (if report.index_valid { Seq::<Seq<char>>::empty() } else {
                seq!["- Index is corrupted. You may need to rebuild it by running 'ash add' on your files."@] }),
    {
        let mut r: Vec<String> = Vec::new();
        if !report.ash_dirs_valid {
            r.push(copy_str("- Repository structure is invalid. Consider re-initializing with 'ash init'."));
        }
        let ghost first = texts(r@);
        if !report.index_valid {
            r.push(copy_str("- Index is corrupted. You may need to rebuild it by running 'ash add' on your files."));
            assert(texts(r@) =~= first.push("- Index is corrupted. You may need to rebuild it by running 'ash add' on your files."@));
        }
        assert(texts(r@) =~= (if report.ash_dirs_valid { Seq::<Seq<char>>::empty() } else {
                seq!["- Repository structure is invalid. Consider re-initializing with 'ash init'."@] })
                + (if report.index_valid { Seq::<Seq<char>>::empty() } else {
                seq!["- Index is corrupted. You may need to rebuild it by running 'ash add' on your files."@] }));
        r
    }

    /// Whether the count of unknown objects is shown.
    pub fn shows_unknown(stats: &ObjectStats) -> (r: bool)
        ensures
            r == (stats.unknown > 0),
    {
        stats.unknown > 0
    }
}

} // verus!
