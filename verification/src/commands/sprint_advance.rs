//! Creating a sprint with given start and end dates.
use vstd::prelude::*;
use crate::text::copy_str;
use crate::errors::error::Error;
use crate::clock::ymd_day;
use crate::vcs::branch_metadata::{SprintMetadata, sprint_branch_name};

verus! {

/// Creates a sprint that runs between two dates.
pub struct SprintAdvanceCommand;

/// A sprint ready to be created: its metadata, its branch and its length.
pub struct SprintPlan {
    pub metadata: SprintMetadata,
    pub branch: String,
    pub duration_days: u32,
}

impl SprintAdvanceCommand {
    /// The error when there is no repository here.
    pub fn no_repository_error() -> (e: Error)
        ensures
            e matches Error::Generic(m) && m@ == "Not an ash repository: .ash directory not found"@,
    {
        Error::Generic(copy_str("Not an ash repository: .ash directory not found"))
    }

    /// Reads the dates and lays out the sprint: it starts at midnight (UTC)
    /// of the start date and lasts the days up to the end date, which must
    /// come after it.
    pub fn plan(name: &str, start_date: &str, end_date: &str) -> (r: Result<SprintPlan, Error>)
        ensures
            match (ymd_day(start_date@), ymd_day(end_date@)) {
                (None, _) => r matches Err(Error::Generic(m)) && m@ == "Invalid start date format. Use YYYY-MM-DD"@,
                (Some(_), None) => r matches Err(Error::Generic(m)) && m@ == "Invalid end date format. Use YYYY-MM-DD"@,
                (Some(s), Some(e)) => if e <= s {
                    r matches Err(Error::Generic(m)) && m@ == "End date must be after start date"@
                } else {
                    r matches Ok(p) && p.metadata.name@ == name@
                        && p.metadata.start_timestamp == (s * 86400) as u64
                        && p.metadata.duration_days == e - s
                        && p.duration_days == e - s
                        && p.branch@ == sprint_branch_name(name@)
                },
            },
    {
        let start = match crate::clock::parse_ymd(start_date) {
            Some(d) => d,
            None => {
                return Err(Error::Generic(copy_str("Invalid start date format. Use YYYY-MM-DD")));
            },
        };
        let end = match crate::clock::parse_ymd(end_date) {
            Some(d) => d,
            None => {
                return Err(Error::Generic(copy_str("Invalid end date format. Use YYYY-MM-DD")));
            },
        };
        if end <= start {
            return Err(Error::Generic(copy_str("End date must be after start date")));
        }
        let days = (end as i64 - start as i64) as u32;
        let stamp = (start as i64 * 86400) as u64;
        let metadata = SprintMetadata::new_at(copy_str(name), days, stamp);
        let branch = metadata.to_branch_name();
        Ok(SprintPlan { metadata, branch, duration_days: days })
    }

    /// Whether the new sprint starts before the active one ends.
    pub fn overlaps(start_timestamp: u64, active_end: u64) -> (r: bool)
        ensures
            r == (start_timestamp < active_end),
    {
        start_timestamp < active_end
    }
}

} // verus!
