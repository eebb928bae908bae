use vstd::prelude::*;

use crate::delete::DeleteResult;

verus! {

/// One audit record for a deletion or a dry run.
pub struct DeleteLog {
    pub timestamp: String,
    pub action: String,
    pub path: String,
    pub size_bytes: u64,
    pub dry_run: bool,
    pub status: String,
    pub files_deleted: u64,
    pub duration_ms: u64,
    /// Absent when there were none.
    pub errors: Option<Vec<String>>,
}

impl DeleteLog {
    /// The record of a deletion that ran to its end, whatever failed along the way.
    pub fn deletion(timestamp: String, path: String, result: DeleteResult, duration_ms: u64) -> (r:
        DeleteLog)
        ensures
            r.timestamp == timestamp,
            r.path == path,
            r.action@ == "delete"@,
            r.size_bytes == result.total_bytes,
            !r.dry_run,
            r.status@ == "success"@,
            r.files_deleted == result.total_files,
            r.duration_ms == duration_ms,
            r.errors == if result.errors@.len() == 0 {
                None
            } else {
                Some(result.errors)
            },
    {
        let errors = if result.errors.len() == 0 {
            None
        } else {
            Some(result.errors)
        };
        DeleteLog {
            timestamp,
            action: "delete".to_owned(),
            path,
            size_bytes: result.total_bytes,
            dry_run: false,
            status: "success".to_owned(),
            files_deleted: result.total_files,
            duration_ms,
            errors,
        }
    }

    /// The record of a dry run that listed `files` paths holding `bytes` bytes.
    pub fn dry_run(timestamp: String, path: String, files: u64, bytes: u64) -> (r: DeleteLog)
        ensures
            r.timestamp == timestamp,
            r.path == path,
            r.action@ == "dry-run"@,
            r.size_bytes == bytes,
            r.dry_run,
            r.status@ == "complete"@,
            r.files_deleted == files,
            r.duration_ms == 0,
            r.errors is None,
    {
        DeleteLog {
            timestamp,
            action: "dry-run".to_owned(),
            path,
            size_bytes: bytes,
            dry_run: true,
            status: "complete".to_owned(),
            files_deleted: files,
            duration_ms: 0,
            errors: None,
        }
    }
}

} // verus!
