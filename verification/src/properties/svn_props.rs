//! Standard SVN property names.
use vstd::prelude::*;

verus! {

    /// Executable flag.
    pub const EXECUTABLE: &'static str = "svn:executable";

    /// MIME type.
    pub const MIME_TYPE: &'static str = "svn:mime-type";

    /// Ignore patterns.
    pub const IGNORE: &'static str = "svn:ignore";

    /// End-of-line style.
    pub const EOL_STYLE: &'static str = "svn:eol-style";

    /// Keywords.
    pub const KEYWORDS: &'static str = "svn:keywords";

    /// Needs lock.
    pub const NEEDS_LOCK: &'static str = "svn:needs-lock";

    /// Special file.
    pub const SPECIAL: &'static str = "svn:special";

    /// Externals.
    pub const EXTERNALS: &'static str = "svn:externals";

    /// Merge info.
    pub const MERGE_INFO: &'static str = "svn:mergeinfo";

    /// Value of `svn:executable`.
    pub const EXECUTABLE_VALUE: &'static str = "*";

    /// Whether a property name is a standard SVN property: it begins with `svn:`.
    pub fn is_svn_property(name: &str) -> (b: bool)
        ensures
            b == (crate::text::starts_with(name@, "svn:"@)),
    {
        crate::text::str_starts_with(name, "svn:")
    }

} // verus!
