//! Decisions taken when the download file is created and pre-allocated.
use vstd::prelude::*;

use crate::text::string_of;

verus! {

/// The length to pre-allocate the file to: the announced size, taken as an
/// unsigned number, when the file is currently shorter; `None` otherwise.
pub fn preallocation_target(file_size: Option<i64>, current_len: u64) -> (r: Option<u64>)
    ensures
        r == match file_size {
            Some(size) => if current_len < size as u64 {
                Some(size as u64)
            } else {
                None
            },
            None => None,
        },
{
    match file_size {
        Some(size) => {
            let target = #[verifier::truncate] (size as u64);
            if current_len < target {
                Some(target)
            } else {
                None
            }
        },
        None => None,
    }
}

/// Why setting the file length failed.
#[derive(Debug, Clone, Copy, PartialEq, Eq, Structural)]
pub enum AllocFailure {
    /// The storage is full.
    StorageFull,
    /// The file system does not allow a file that large.
    FileTooLarge,
    /// Any other reason.
    Other,
}

/// The error that ends the download when pre-allocation fails, or `None` when
/// the download continues without pre-allocation (after a warning).
pub fn preallocation_error(failure: AllocFailure) -> (r: Option<String>)
    ensures
        match failure {
            AllocFailure::StorageFull => r matches Some(m) && m@ == "Insufficient disk space"@,
            AllocFailure::FileTooLarge => r matches Some(m) && m@
                == "File exceeds filesystem size limit. Please use a filesystem that supports large files."@,
            AllocFailure::Other => r is None,
        },
{
    match failure {
        AllocFailure::StorageFull => Some(string_of("Insufficient disk space")),
        AllocFailure::FileTooLarge => Some(
            string_of(
                "File exceeds filesystem size limit. Please use a filesystem that supports large files.",
            ),
        ),
        AllocFailure::Other => None,
    }
}

} // verus!
