# dsvn

A Subversion-compatible server toolkit whose logic is written and proved with Verus.

- `src/` is the verified library: the object model (ids, blobs, trees, commits),
  pack files, the replication wire frames, dump files (parsing, writing, the
  load plans and the stream reader of the load endpoint), WebDAV request routing
  and the XML answers of the SVN protocol (OPTIONS, PROPFIND, PROPPATCH, REPORT,
  MERGE, activities), the multistatus documents read with the `quick_xml` event
  reader and written back, authentication and path-based authorization, hooks'
  inputs, sync state and the replication log, and the file tree of a revision
  (how a revision's changes apply, file lookup, directory listing).
  Each public function states what it returns in its `ensures`. The laws of the
  library (for example that a generated dump reads back as its revisions, or
  that a pack reads back as its objects) are public proof functions named
  `law_*`.
- `app/` is the ordinary Rust around it: files, serde records, the process runs
  of hooks, and the floating-point statistics.
- `tests/` runs the library on concrete values.

Outside crates (sha2, sha1, md5, hex, base64, zstd, chrono, uuid, quick-xml) are called from
`src/` through small trusted wrappers, each with a doc comment that says what its
contract claims of the crate.
