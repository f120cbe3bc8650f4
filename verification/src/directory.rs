//! Validation of a host directory path before it is used as a storage
//! root or mount point. The caller probes the host path and hands the two
//! observations in; the decision itself is verified.

use vstd::prelude::*;

use crate::attr::FsError;

verus! {

/// Ensures the given path exists and is a directory, given whether it
/// exists and whether it is a directory. A missing path is reported before
/// a non-directory one.
pub fn validate_dir(exists: bool, is_dir: bool) -> (r: Result<(), FsError>)
    ensures
        !exists ==> r == Err::<(), FsError>(FsError::NotFound),
        exists && !is_dir ==> r == Err::<(), FsError>(FsError::NotADirectory),
        exists && is_dir ==> r == Ok::<(), FsError>(()),
{
    if !exists {
        return Err(FsError::NotFound);
    }
    if !is_dir {
        return Err(FsError::NotADirectory);
    }
    Ok(())
}

} // verus!
