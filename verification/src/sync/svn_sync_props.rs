//! SVN-compatible sync properties stored on revision 0.
use vstd::prelude::*;

verus! {

/// The URL of the source repository.
pub const SYNC_FROM_URL: &'static str = "svn:sync-from-url";

/// The UUID of the source repository.
pub const SYNC_FROM_UUID: &'static str = "svn:sync-from-uuid";

/// The last merged revision.
pub const SYNC_LAST_MERGED_REV: &'static str = "svn:sync-last-merged-rev";

/// Lock token that prevents concurrent syncs.
pub const SYNC_LOCK: &'static str = "svn:sync-lock";

/// The revision being copied.
pub const SYNC_CURRENTLY_COPYING: &'static str = "svn:sync-currently-copying";

} // verus!
