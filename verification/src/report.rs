//! The job-scoped aggregate report, the job's error values, and the
//! finalizer.

use vstd::prelude::*;

verus! {

/// Job-scoped aggregate: where the pass ran, how many orphan file paths it
/// saw, and what it did with them. Created empty at job start, incremented
/// per chunk, handed out as the job's final result.
#[derive(Debug)]
pub struct FileIdentifierReport {
    /// The filesystem path of the location the pass ran over.
    pub location_path: String,
    /// How many orphan file paths the job saw at start.
    pub total_orphan_paths: usize,
    /// How many objects the pass created for previously unseen identities.
    pub total_objects_created: usize,
    /// How many file paths the pass linked to an object, pre-existing or new.
    pub total_objects_linked: usize,
    /// How many file paths the pass ignored.
    pub total_objects_ignored: usize,
}

impl Default for FileIdentifierReport {
    /// The empty report.
    fn default() -> (r: FileIdentifierReport)
        ensures
            r.location_path@ == Seq::<char>::empty(),
            r.total_orphan_paths == 0,
            r.total_objects_created == 0,
            r.total_objects_linked == 0,
            r.total_objects_ignored == 0,
    {
        FileIdentifierReport {
            location_path: String::new(),
            total_orphan_paths: 0,
            total_objects_created: 0,
            total_objects_linked: 0,
            total_objects_ignored: 0,
        }
    }
}

/// A job-fatal error.
#[derive(Debug)]
pub enum JobError {
    /// The job had to finish early: the store disagreed with what the job
    /// was told to expect (an expected-non-empty chunk arrived empty).
    EarlyFinish {
        /// The job that failed.
        name: String,
        /// Why it could not continue.
        reason: String,
    },
}

/// An error of the file identifier itself.
#[derive(Debug)]
pub enum FileIdentifierJobError {
    /// A file path could not be used (its description).
    FilePathError(String),
}

impl FileIdentifierJobError {
    /// The human-readable description of the error.
    pub fn message(&self) -> (r: &String)
        ensures
            match self {
                FileIdentifierJobError::FilePathError(m) => r@ == m@,
            },
    {
        match self {
            FileIdentifierJobError::FilePathError(m) => m,
        }
    }
}

/// What finishing the job produces: the report, and whether cached
/// directory-listing views must be invalidated (they must exactly when the
/// job touched at least one orphan path).
#[derive(Debug)]
pub struct JobOutput {
    /// The job's result payload.
    pub report: FileIdentifierReport,
    /// Whether the caller must signal its caching layer that listing views
    /// are stale.
    pub invalidate_explorer_cache: bool,
}

/// Finalizes the identifier job: wraps the report as the job's output and
/// signals cache invalidation exactly when any orphan path was seen.
pub fn finalize_file_identifier(report: FileIdentifierReport) -> (r: JobOutput)
    ensures
        r.report == report,
        r.invalidate_explorer_cache == (report.total_orphan_paths > 0),
{
    let invalidate = report.total_orphan_paths > 0;
    JobOutput { report, invalidate_explorer_cache: invalidate }
}

} // verus!
