//! WebDAV server configuration, errors, and the routing of requests to handlers.
use vstd::prelude::*;
use crate::text::{starts_with, str_starts_with, str_eq, chars_of, string_of_range, concat2, to_owned};
use crate::strmap::StrMap;
use crate::dump_handlers::{is_dump_request, is_load_request, DUMPFILE_MIME};

verus! {

/// Single repository configuration.
#[derive(Debug, Clone)]
pub struct RepoConfig {
    /// Repository path on disk.
    pub path: String,
    /// Repository display name.
    pub display_name: Option<String>,
    /// Repository description.
    pub description: Option<String>,
}

impl RepoConfig {
    /// A repository at `path`, without name or description.
    pub fn new(path: String) -> (c: Self)
        ensures
            c.path@ == path@,
            c.display_name is None,
            c.description is None,
    {
        RepoConfig { path, display_name: None, description: None }
    }

    /// The same configuration with a display name.
    pub fn with_display_name(self, name: String) -> (c: Self)
        ensures
            c.path@ == self.path@,
            c.display_name matches Some(n) && n@ == name@,
            c.description == self.description,
    {
        RepoConfig { display_name: Some(name), ..self }
    }

    /// The same configuration with a description.
    pub fn with_description(self, desc: String) -> (c: Self)
        ensures
            c.path@ == self.path@,
            c.display_name == self.display_name,
            c.description matches Some(d) && d@ == desc@,
    {
        RepoConfig { description: Some(desc), ..self }
    }
}

/// Multi-repository configuration.
#[derive(Debug, Clone)]
pub struct MultiRepoConfig {
    /// Whether several repositories are served.
    pub multi_repo: bool,
    /// Repositories by name.
    pub repositories: StrMap<RepoConfig>,
}

impl Default for MultiRepoConfig {
    fn default() -> (c: Self)
        ensures
            !c.multi_repo,
            c.repositories.wf(),
            c.repositories@ == Map::<Seq<char>, RepoConfig>::empty(),
    {
        MultiRepoConfig { multi_repo: false, repositories: StrMap::new() }
    }
}

/// WebDAV configuration.
#[derive(Debug, Clone)]
pub struct Config {
    /// Repository root path (single-repository mode).
    pub repo_root: String,
    /// Multi-repository configuration.
    pub multi_repo_config: MultiRepoConfig,
    /// Largest request body, in bytes.
    pub max_body_size: usize,
    /// Whether answers are compressed.
    pub compression: bool,
    /// Whether debug logging is on.
    pub debug: bool,
}

impl Default for Config {
    fn default() -> (c: Self)
        ensures
            c.repo_root@ == "/svn"@,
            !c.multi_repo_config.multi_repo,
            c.multi_repo_config.repositories@ == Map::<Seq<char>, RepoConfig>::empty(),
            c.max_body_size == 100 * 1024 * 1024,
            c.compression,
            !c.debug,
    {
        Config {
            repo_root: to_owned("/svn"),
            multi_repo_config: MultiRepoConfig::default(),
            max_body_size: 100 * 1024 * 1024,
            compression: true,
            debug: false,
        }
    }
}

/// WebDAV request handler.
pub struct WebDavHandler {
    pub config: Config,
}

impl WebDavHandler {
    /// A handler with the default configuration.
    pub fn new() -> (h: Self)
        ensures
            h.config.repo_root@ == "/svn"@,
            h.config.max_body_size == 100 * 1024 * 1024,
            h.config.compression,
            !h.config.debug,
            !h.config.multi_repo_config.multi_repo,
    {
        WebDavHandler { config: Config::default() }
    }

    /// A handler with the given configuration.
    pub fn with_config(config: Config) -> (h: Self)
        ensures
            h.config == config,
    {
        WebDavHandler { config }
    }

    /// A handler with the default configuration.
    pub fn default() -> (h: Self)
        ensures
            h.config.repo_root@ == "/svn"@,
            h.config.max_body_size == 100 * 1024 * 1024,
            h.config.compression,
            !h.config.debug,
            !h.config.multi_repo_config.multi_repo,
    {
        Self::new()
    }
}

/// WebDAV errors.
#[derive(Debug)]
pub enum WebDavError {
    Http(String),
    Xml(String),
    InvalidRequest(String),
    NotFound(String),
    Unauthorized,
    Forbidden(String),
    Internal(String),
}

/// The message of an error.
pub open spec fn error_message(e: WebDavError) -> Seq<char> {
    match e {
        WebDavError::Http(s) => "HTTP error: "@ + s@,
        WebDavError::Xml(s) => "XML parsing error: "@ + s@,
        WebDavError::InvalidRequest(s) => "Invalid request: "@ + s@,
        WebDavError::NotFound(s) => "Not found: "@ + s@,
        WebDavError::Unauthorized => "Authentication required"@,
        WebDavError::Forbidden(s) => "Forbidden: "@ + s@,
        WebDavError::Internal(s) => "Internal server error: "@ + s@,
    }
}

impl WebDavError {
    /// The error's message.
    pub fn message(&self) -> (m: String)
        ensures
            m@ == error_message(*self),
    {
        match self {
            WebDavError::Http(s) => concat2("HTTP error: ", s.as_str()),
            WebDavError::Xml(s) => concat2("XML parsing error: ", s.as_str()),
            WebDavError::InvalidRequest(s) => concat2("Invalid request: ", s.as_str()),
            WebDavError::NotFound(s) => concat2("Not found: ", s.as_str()),
            WebDavError::Unauthorized => to_owned("Authentication required"),
            WebDavError::Forbidden(s) => concat2("Forbidden: ", s.as_str()),
            WebDavError::Internal(s) => concat2("Internal server error: ", s.as_str()),
        }
    }
}

// ─────────────────────────── routing ───────────────────────────

/// The WebDAV methods that have handlers.
#[derive(Debug, Clone, Copy, PartialEq, Eq, Structural)]
pub enum DavMethod {
    Options,
    Propfind,
    Proppatch,
    Report,
    Merge,
    Checkout,
    Mkactivity,
    Mkcol,
    Delete,
    Put,
    Get,
    Head,
    Lock,
    Unlock,
    Copy,
    Move,
    Post,
}

/// Where a request goes.
#[derive(Debug, Clone, PartialEq, Eq)]
pub enum Route {
    /// List the repositories.
    ListRepos,
    /// Create a repository from the body.
    CreateRepo,
    /// Delete the named repository.
    DeleteRepo(String),
    /// A sync endpoint, with the path after `/sync`.
    Sync(String),
    /// A dump of the repository.
    Dump,
    /// A load of a dump file from the body.
    Load,
    /// The handler of a WebDAV method.
    Dav(DavMethod),
    /// 405 Method Not Allowed.
    MethodNotAllowed,
}

/// A route as plain values: its kind, its text, its method.
pub open spec fn route_view(r: Route) -> (nat, Seq<char>, Option<DavMethod>) {
    match r {
        Route::ListRepos => (0, Seq::empty(), None),
        Route::CreateRepo => (1, Seq::empty(), None),
        Route::DeleteRepo(n) => (2, n@, None),
        Route::Sync(p) => (3, p@, None),
        Route::Dump => (4, Seq::empty(), None),
        Route::Load => (5, Seq::empty(), None),
        Route::Dav(m) => (6, Seq::empty(), Some(m)),
        Route::MethodNotAllowed => (7, Seq::empty(), None),
    }
}

/// The handler of a method name.
pub open spec fn dav_method_of(m: Seq<char>) -> Option<DavMethod> {
    if m == "OPTIONS"@ { Some(DavMethod::Options) }
    else if m == "PROPFIND"@ { Some(DavMethod::Propfind) }
    else if m == "PROPPATCH"@ { Some(DavMethod::Proppatch) }
    else if m == "REPORT"@ { Some(DavMethod::Report) }
    else if m == "MERGE"@ { Some(DavMethod::Merge) }
    else if m == "CHECKOUT"@ { Some(DavMethod::Checkout) }
    else if m == "MKACTIVITY"@ { Some(DavMethod::Mkactivity) }
    else if m == "MKCOL"@ { Some(DavMethod::Mkcol) }
    else if m == "DELETE"@ { Some(DavMethod::Delete) }
    else if m == "PUT"@ { Some(DavMethod::Put) }
    else if m == "GET"@ { Some(DavMethod::Get) }
    else if m == "HEAD"@ { Some(DavMethod::Head) }
    else if m == "LOCK"@ { Some(DavMethod::Lock) }
    else if m == "UNLOCK"@ { Some(DavMethod::Unlock) }
    else if m == "COPY"@ { Some(DavMethod::Copy) }
    else if m == "MOVE"@ { Some(DavMethod::Move) }
    else if m == "POST"@ { Some(DavMethod::Post) }
    else { None }
}

/// The route after the repository API and the sync endpoints: a dump for a `GET` that
/// accepts a dump file, a load for a `POST` that carries one, else the method's
/// handler, else 405.
pub open spec fn general_route(method: Seq<char>, accept: Seq<char>, content_type: Seq<char>) -> (nat, Seq<char>, Option<DavMethod>) {
    if method == "GET"@ && (crate::text::contains(accept, DUMPFILE_MIME@) || crate::text::contains(accept, "svn-dumpfile"@)) {
        (4, Seq::empty(), None)
    } else if method == "POST"@ && (crate::text::contains(content_type, DUMPFILE_MIME@) || crate::text::contains(
        content_type,
        "svn-dumpfile"@,
    )) {
        (5, Seq::empty(), None)
    } else {
        match dav_method_of(method) {
            Some(m) => (6, Seq::empty(), Some(m)),
            None => (7, Seq::empty(), None),
        }
    }
}

/// Where a request goes: the repository API under `/svn/_api/repos` (`GET` lists,
/// `POST` creates, `DELETE` on `/svn/_api/repos/<name>` deletes, other methods get
/// 405), then the sync endpoints under `/sync`, then dumps, loads and the WebDAV
/// methods.
pub open spec fn route_of(method: Seq<char>, path: Seq<char>, accept: Seq<char>, content_type: Seq<char>) -> (nat, Seq<char>, Option<DavMethod>) {
    let api = "/svn/_api/repos"@;
    let api_slash = "/svn/_api/repos/"@;
    if starts_with(path, api) && path == api {
        if method == "GET"@ {
            (0, Seq::empty(), None)
        } else if method == "POST"@ {
            (1, Seq::empty(), None)
        } else {
            (7, Seq::empty(), None)
        }
    } else if starts_with(path, api) && starts_with(path, api_slash) && path.len() > api_slash.len() {
        if method == "DELETE"@ {
            (2, path.subrange(api_slash.len() as int, path.len() as int), None)
        } else {
            (7, Seq::empty(), None)
        }
    } else if starts_with(path, "/sync/"@) || path == "/sync"@ {
        (3, path.subrange(5, path.len() as int), None)
    } else {
        general_route(method, accept, content_type)
    }
}

/// The handler of a method name.
fn dav_method(m: &str) -> (r: Option<DavMethod>)
    ensures
        r == dav_method_of(m@),
{
    if str_eq(m, "OPTIONS") { Some(DavMethod::Options) }
    else if str_eq(m, "PROPFIND") { Some(DavMethod::Propfind) }
    else if str_eq(m, "PROPPATCH") { Some(DavMethod::Proppatch) }
    else if str_eq(m, "REPORT") { Some(DavMethod::Report) }
    else if str_eq(m, "MERGE") { Some(DavMethod::Merge) }
    else if str_eq(m, "CHECKOUT") { Some(DavMethod::Checkout) }
    else if str_eq(m, "MKACTIVITY") { Some(DavMethod::Mkactivity) }
    else if str_eq(m, "MKCOL") { Some(DavMethod::Mkcol) }
    else if str_eq(m, "DELETE") { Some(DavMethod::Delete) }
    else if str_eq(m, "PUT") { Some(DavMethod::Put) }
    else if str_eq(m, "GET") { Some(DavMethod::Get) }
    else if str_eq(m, "HEAD") { Some(DavMethod::Head) }
    else if str_eq(m, "LOCK") { Some(DavMethod::Lock) }
    else if str_eq(m, "UNLOCK") { Some(DavMethod::Unlock) }
    else if str_eq(m, "COPY") { Some(DavMethod::Copy) }
    else if str_eq(m, "MOVE") { Some(DavMethod::Move) }
    else if str_eq(m, "POST") { Some(DavMethod::Post) }
    else { None }
}

/// Routes a request by method, path, `Accept` and `Content-Type`.
pub fn route_request(method: &str, path: &str, accept: &str, content_type: &str) -> (r: Route)
    ensures
        route_view(r) == route_of(method@, path@, accept@, content_type@),
{
    let p = chars_of(path);
    let api_slash = chars_of("/svn/_api/repos/");
    proof {
        reveal_strlit("/svn/_api/repos/");
        reveal_strlit("/svn/_api/repos");
        reveal_strlit("/sync/");
        reveal_strlit("/sync");
    }
    if str_starts_with(path, "/svn/_api/repos") {
        if str_eq(path, "/svn/_api/repos") {
            if str_eq(method, "GET") {
                return Route::ListRepos;
            } else if str_eq(method, "POST") {
                return Route::CreateRepo;
            } else {
                return Route::MethodNotAllowed;
            }
        } else if str_starts_with(path, "/svn/_api/repos/") && p.len() > api_slash.len() {
            if str_eq(method, "DELETE") {
                return Route::DeleteRepo(string_of_range(&p, api_slash.len(), p.len()));
            } else {
                return Route::MethodNotAllowed;
            }
        }
    }
    if str_starts_with(path, "/sync/") || str_eq(path, "/sync") {
        return Route::Sync(string_of_range(&p, 5, p.len()));
    }
    let get = str_eq(method, "GET");
    if get && is_dump_request(accept) {
        return Route::Dump;
    }
    if str_eq(method, "POST") && is_load_request(content_type) {
        return Route::Load;
    }
    match dav_method(method) {
        Some(m) => Route::Dav(m),
        None => Route::MethodNotAllowed,
    }
}

// ─────────────────────────── repository of a path ───────────────────────────

/// The first non-empty piece of `pieces`.
pub open spec fn first_nonempty(pieces: Seq<Seq<char>>) -> Option<Seq<char>>
    decreases pieces.len(),
{
    if pieces.len() == 0 {
        None
    } else if pieces[0].len() > 0 {
        Some(pieces[0])
    } else {
        first_nonempty(pieces.drop_first())
    }
}

/// The repository a path names in multi-repository mode: the first non-empty piece
/// of the path after the `/svn` prefix; `None` where there is none (the default
/// repository is then used).
pub open spec fn repo_name_of(path: Seq<char>) -> Option<Seq<char>> {
    first_nonempty(crate::text::split(crate::activity::special_of(path), '/'))
}

/// The repository a path names.
pub fn repo_name_in_path(path: &str) -> (r: Option<String>)
    ensures
        match repo_name_of(path@) {
            Some(n) => r matches Some(x) && x@ == n,
            None => r is None,
        },
{
    let p = chars_of(path);
    proof {
        reveal_strlit("/svn");
    }
    let start: usize = if str_starts_with(path, "/svn") { 4 } else { 0 };
    let ghost sp = p@.subrange(start as int, p@.len() as int);
    assert(sp == crate::activity::special_of(path@));
    let ranges = crate::text::split_ranges(&p, start, p.len(), '/');
    let ghost pieces = crate::text::split(sp, '/');
    let mut i: usize = 0;
    assert(pieces.subrange(0, pieces.len() as int) =~= pieces);
    while i < ranges.len()
        invariant
            i <= ranges@.len(),
            ranges@.len() == pieces.len(),
            crate::text::ranges_match(p@, ranges@, pieces),
            first_nonempty(pieces.subrange(i as int, pieces.len() as int)) == first_nonempty(pieces),
            pieces == crate::text::split(crate::activity::special_of(path@), '/'),
        decreases ranges@.len() - i,
    {
        let ghost rest = pieces.subrange(i as int, pieces.len() as int);
        assert(rest[0] == pieces[i as int]);
        assert(rest.drop_first() =~= pieces.subrange(i + 1, pieces.len() as int));
        let (a, b) = ranges[i];
        assert(p@.subrange(a as int, b as int) == pieces[i as int]);
        if a < b {
            return Some(string_of_range(&p, a, b));
        }
        i = i + 1;
    }
    None
}

} // verus!
