//! Authentication: htpasswd files and simple providers.
use vstd::prelude::*;
use sha1::Digest;
use crate::strmap::StrMap;
use crate::text::{chars_of, trim, starts_with, split, split_once, find, concat2, to_owned};

verus! {

/// Outcome of an authentication attempt.
#[derive(Debug, Clone, PartialEq)]
pub enum AuthResult {
    /// Authenticated as the given user.
    Success(String),
    /// Wrong credentials.
    Failed,
    /// The check itself could not be done.
    Error(String),
}

/// The abstract value of an [`AuthResult`].
pub enum AuthOutcome {
    Success(Seq<char>),
    Failed,
    Error(Seq<char>),
}

impl AuthResult {
    /// The outcome with its strings as character sequences.
    pub open spec fn view(&self) -> AuthOutcome {
        match self {
            AuthResult::Success(u) => AuthOutcome::Success(u@),
            AuthResult::Failed => AuthOutcome::Failed,
            AuthResult::Error(e) => AuthOutcome::Error(e@),
        }
    }
}

/// A source of authentication decisions.
pub trait AuthProvider {
    /// Authenticates a user with a password.
    fn authenticate(&self, username: &str, password: &str) -> AuthResult;
}

// ─────────────────────────── hashing ────────────────────────────

/// SHA-1 of a byte sequence (the digest the `sha1` crate computes).
pub uninterp spec fn sha1(data: Seq<u8>) -> Seq<u8>;

/// SHA-1 of `data`, computed with `sha1::Sha1`; claimed to be `sha1(data)`.
#[verifier::external_body]
fn sha1_digest(data: &[u8]) -> (r: Vec<u8>)
    ensures
        r@ == sha1(data@),
{
    let mut hasher = sha1::Sha1::new();
    hasher.update(data);
    hasher.finalize().to_vec()
}

/// The character of a 6-bit value in the standard base64 alphabet.
pub open spec fn b64_char(v: nat) -> char {
    if v < 26 {
        ((65 + v) as u8) as char
    } else if v < 52 {
        ((97 + v - 26) as u8) as char
    } else if v < 62 {
        ((48 + v - 52) as u8) as char
    } else if v == 62 {
        '+'
    } else {
        '/'
    }
}

/// Standard base64 with `=` padding: each 3 bytes become 4 characters.
pub open spec fn base64_std(b: Seq<u8>) -> Seq<char>
    decreases b.len(),
{
    if b.len() == 0 {
        Seq::empty()
    } else if b.len() == 1 {
        seq![b64_char((b[0] / 4) as nat), b64_char(((b[0] % 4) * 16) as nat), '=', '=']
    } else if b.len() == 2 {
        seq![
            b64_char((b[0] / 4) as nat),
            b64_char(((b[0] % 4) * 16 + b[1] / 16) as nat),
            b64_char(((b[1] % 16) * 4) as nat),
            '=',
        ]
    } else {
        seq![
            b64_char((b[0] / 4) as nat),
            b64_char(((b[0] % 4) * 16 + b[1] / 16) as nat),
            b64_char(((b[1] % 16) * 4 + b[2] / 64) as nat),
            b64_char((b[2] % 64) as nat),
        ] + base64_std(b.subrange(3, b.len() as int))
    }
}

/// `base64::encode` (standard alphabet, padded); claimed to give `base64_std` of the bytes,
/// as the crate's documentation describes the encoding.
#[verifier::external_body]
pub(crate) fn base64_encode(data: &[u8]) -> (s: String)
    ensures
        s@ == base64_std(data@),
{
    #[allow(deprecated)]
    base64::encode(data)
}

// ─────────────────────────── htpasswd ───────────────────────────

/// Message for a line without `:`.
pub open spec fn msg_invalid_line(line: Seq<char>) -> Seq<char> {
    "Invalid htpasswd line: "@ + line
}

/// Message for a line with an empty name or hash.
pub open spec fn msg_empty_field(line: Seq<char>) -> Seq<char> {
    "Invalid htpasswd line (empty username or hash): "@ + line
}

/// What one htpasswd line says.
pub enum HtLine {
    /// Blank or comment.
    Skip,
    /// Malformed, with the message.
    Bad(Seq<char>),
    /// A user and a hash.
    User(Seq<char>, Seq<char>),
}

/// Reading one raw htpasswd line.
pub open spec fn htpasswd_line(raw: Seq<char>) -> HtLine {
    let line = trim(raw);
    if line.len() == 0 || line[0] == '#' {
        HtLine::Skip
    } else {
        match split_once(line, seq![':']) {
            None => HtLine::Bad(msg_invalid_line(line)),
            Some(parts) => {
                let u = trim(parts.0);
                let h = trim(parts.1);
                if u.len() == 0 || h.len() == 0 {
                    HtLine::Bad(msg_empty_field(line))
                } else {
                    HtLine::User(u, h)
                }
            },
        }
    }
}

/// Reading htpasswd lines into a user → hash map; the first bad line is reported.
pub open spec fn htpasswd_lines(
    lines: Seq<Seq<char>>,
    users: Map<Seq<char>, Seq<char>>,
) -> Result<Map<Seq<char>, Seq<char>>, Seq<char>>
    decreases lines.len(),
{
    if lines.len() == 0 {
        Ok(users)
    } else {
        match htpasswd_line(lines[0]) {
            HtLine::Skip => htpasswd_lines(lines.drop_first(), users),
            HtLine::Bad(m) => Err(m),
            HtLine::User(u, h) => htpasswd_lines(lines.drop_first(), users.insert(u, h)),
        }
    }
}

/// One parsed line, executable form of [`HtLine`].
enum LineParse {
    Skip,
    Bad(String),
    User(String, String),
}

/// Reads the line `v[a..b]`.
fn parse_htpasswd_line(v: &Vec<char>, a: usize, b: usize) -> (r: LineParse)
    requires
        a <= b <= v.len(),
    ensures
        match (r, htpasswd_line(v@.subrange(a as int, b as int))) {
            (LineParse::Skip, HtLine::Skip) => true,
            (LineParse::Bad(m), HtLine::Bad(msg)) => m@ == msg,
            (LineParse::User(u, h), HtLine::User(uu, hh)) => u@ == uu && h@ == hh,
            _ => false,
        },
{
    let ghost raw = v@.subrange(a as int, b as int);
    let (ta, tb) = crate::text::trim_bounds(v, a, b);
    let ghost line = trim(raw);
    assert(line == v@.subrange(ta as int, tb as int));
    if ta == tb || v[ta] == '#' {
        assert(htpasswd_line(raw) is Skip);
        return LineParse::Skip;
    }
    assert(line.len() > 0 && line[0] != '#');
    let colon = vec![':'];
    assert(colon@ =~= seq![':']);
    match crate::text::find_sub(v, &colon, ta, tb) {
        None => {
            let l = crate::text::string_of_range(v, ta, tb);
            let m = concat2("Invalid htpasswd line: ", l.as_str());
            assert(split_once(line, seq![':']) is None);
            assert(m@ == msg_invalid_line(line));
            assert(htpasswd_line(raw) == HtLine::Bad(msg_invalid_line(line)));
            LineParse::Bad(m)
        },
        Some(c) => {
            proof {
                let k = (c - ta) as int;
                assert(find(line, seq![':']) == Some(k));
                assert(line.subrange(0, k) =~= v@.subrange(ta as int, c as int));
                assert(line.subrange(k + 1, line.len() as int) =~= v@.subrange(c + 1, tb as int));
                assert(split_once(line, seq![':']) == Some((v@.subrange(ta as int, c as int), v@.subrange(c + 1, tb as int))));
            }
            let u = crate::text::trimmed_string(v, ta, c);
            let h = crate::text::trimmed_string(v, c + 1, tb);
            assert(split_once(line, seq![':']) is Some);
            if u.as_str().is_empty() || h.as_str().is_empty() {
                let l = crate::text::string_of_range(v, ta, tb);
                let m = concat2("Invalid htpasswd line (empty username or hash): ", l.as_str());
                assert(m@ == msg_empty_field(line));
                assert(htpasswd_line(raw) == HtLine::Bad(msg_empty_field(line)));
                LineParse::Bad(m)
            } else {
                assert(htpasswd_line(raw) == HtLine::User(u@, h@));
                LineParse::User(u, h)
            }
        },
    }
}

/// What the htpasswd parser gives for some content: the user → hash map, or the message.
pub open spec fn htpasswd_parse(content: Seq<char>) -> Result<Map<Seq<char>, Seq<char>>, Seq<char>> {
    match htpasswd_lines(split(content, '\n'), Map::empty()) {
        Err(m) => Err(m),
        Ok(users) => if users.dom().len() == 0 {
            Err("No valid users found in htpasswd file"@)
        } else {
            Ok(users)
        },
    }
}

/// Password hashes of an htpasswd file.
pub struct HtpasswdAuthProvider {
    users: StrMap<String>,
}

/// The user → hash map of a string map.
pub open spec fn string_map_view(m: Map<Seq<char>, String>) -> Map<Seq<char>, Seq<char>> {
    m.map_values(|v: String| v@)
}

/// Outcome of checking a password against a stored hash: `Ok(matches)` or a message.
pub open spec fn verify_hash(hash: Seq<char>, password: Seq<char>, username: Seq<char>) -> Result<bool, Seq<char>> {
    if starts_with(hash, "$2"@) {
        if !starts_with(hash, "$2y$"@) && !starts_with(hash, "$2b$"@) && !starts_with(hash, "$2a$"@) {
            Ok(false)
        } else {
            Err("bcrypt verification requires the 'bcrypt' feature"@)
        }
    } else if starts_with(hash, "{SHA}"@) {
        Ok(base64_std(sha1(vstd::utf8::encode_utf8(password))) == hash.subrange(5, hash.len() as int))
    } else if !starts_with(hash, "$"@) {
        Err("crypt password hashes are deprecated and not supported"@)
    } else {
        Err("Unsupported password hash format for user: "@ + username)
    }
}

/// The decision of an htpasswd provider with users `users`.
pub open spec fn htpasswd_decision(
    users: Map<Seq<char>, Seq<char>>,
    username: Seq<char>,
    password: Seq<char>,
) -> AuthOutcome {
    if username.len() == 0 || password.len() == 0 {
        AuthOutcome::Failed
    } else if !users.contains_key(username) {
        AuthOutcome::Error("User not found: "@ + username)
    } else {
        match verify_hash(users[username], password, username) {
            Ok(true) => AuthOutcome::Success(username),
            Ok(false) => AuthOutcome::Failed,
            Err(m) => AuthOutcome::Error(m),
        }
    }
}

impl HtpasswdAuthProvider {
    /// The invariant of the user table.
    #[verifier::type_invariant]
    pub closed spec fn wf(&self) -> bool {
        self.users.wf()
    }

    /// Username → hash.
    pub closed spec fn view(&self) -> Map<Seq<char>, Seq<char>> {
        string_map_view(self.users.view())
    }

    /// The user table.
    pub fn users(&self) -> (r: &StrMap<String>)
        ensures
            r.wf(),
            string_map_view(r.view()) == self.view(),
    {
        proof {
            use_type_invariant(self);
        }
        &self.users
    }

    fn verify_sha1(hash: &str, password: &str) -> (r: Result<bool, String>)
        requires
            starts_with(hash@, "{SHA}"@),
        ensures
            r matches Ok(b) && b == (base64_std(sha1(vstd::utf8::encode_utf8(password@))) == hash@.subrange(5, hash@.len() as int)),
    {
        proof {
            reveal_strlit("{SHA}");
        }
        let h = chars_of(hash);
        let expected = crate::text::sub(&h, 5, h.len());
        let digest = sha1_digest(password.as_bytes());
        let computed = base64_encode(digest.as_slice());
        let c = chars_of(computed.as_str());
        Ok(crate::text::chars_eq(&c, &expected))
    }

    fn verify_password(&self, username: &str, password: &str) -> (r: Result<bool, String>)
        ensures
            !self.view().contains_key(username@) ==> (r matches Err(m) && m@ == "User not found: "@ + username@),
            self.view().contains_key(username@) ==> match (r, verify_hash(self.view()[username@], password@, username@)) {
                (Ok(a), Ok(b)) => a == b,
                (Err(m), Err(msg)) => m@ == msg,
                _ => false,
            },
    {
        proof {
            use_type_invariant(self);
        }
        let hash = match self.users.get(username) {
            Some(h) => h,
            None => {
                return Err(concat2("User not found: ", username));
            },
        };
        let hs = hash.as_str();
        if crate::text::str_starts_with(hs, "$2") {
            if !crate::text::str_starts_with(hs, "$2y$") && !crate::text::str_starts_with(hs, "$2b$")
                && !crate::text::str_starts_with(hs, "$2a$") {
                return Ok(false);
            }
            return Err(to_owned("bcrypt verification requires the 'bcrypt' feature"));
        }
        if crate::text::str_starts_with(hs, "{SHA}") {
            return Self::verify_sha1(hs, password);
        }
        if !crate::text::str_starts_with(hs, "$") {
            return Err(to_owned("crypt password hashes are deprecated and not supported"));
        }
        Err(concat2("Unsupported password hash format for user: ", username))
    }

    /// Parses htpasswd content: one `user:hash` per line; blank lines and lines that start
    /// with `#` are skipped; both parts are trimmed and must be non-empty; later lines
    /// win for a repeated user; at least one user is required.
    pub fn from_content(content: &str) -> (r: Result<Self, String>)
        ensures
            match (r, htpasswd_parse(content@)) {
                (Ok(p), Ok(users)) => p.view() == users,
                (Err(m), Err(msg)) => m@ == msg,
                _ => false,
            },
    {
        Self::parse(content)
    }

    fn parse(content: &str) -> (r: Result<Self, String>)
        ensures
            match (r, htpasswd_parse(content@)) {
                (Ok(p), Ok(users)) => p.view() == users,
                (Err(m), Err(msg)) => m@ == msg,
                _ => false,
            },
    {
        let v = chars_of(content);
        let ranges = crate::text::split_ranges(&v, 0, v.len(), '\n');
        let ghost lines = split(content@, '\n');
        assert(v@.subrange(0, v@.len() as int) =~= v@);
        let mut users: StrMap<String> = StrMap::new();
        assert(lines.skip(0) =~= lines);
        assert(string_map_view(users.view()) =~= Map::<Seq<char>, Seq<char>>::empty());
        let mut i: usize = 0;
        while i < ranges.len()
            invariant
                i <= ranges@.len(),
                lines == split(content@, '\n'),
                v@ == content@,
                users.wf(),
                crate::text::ranges_match(v@, ranges@, lines),
                htpasswd_lines(lines, Map::empty()) == htpasswd_lines(lines.skip(i as int), string_map_view(users.view())),
            decreases ranges.len() - i,
        {
            let (a, b) = ranges[i];
            assert(v@.subrange(a as int, b as int) == lines[i as int]);
            assert(lines.skip(i as int).drop_first() =~= lines.skip(i + 1));
            assert(lines.skip(i as int)[0] == lines[i as int]);
            match parse_htpasswd_line(&v, a, b) {
                LineParse::Skip => {},
                LineParse::Bad(m) => {
                    return Err(m);
                },
                LineParse::User(u, h) => {
                    let ghost uv = u@;
                    let ghost hv = h@;
                    let ghost before = users.view();
                    users.insert(u, h);
                    proof {
                        assert(string_map_view(users.view()) =~= string_map_view(before).insert(uv, hv));
                    }
                },
            }
            i = i + 1;
        }
        proof {
            assert(lines.skip(i as int).len() == 0);
            crate::strmap::lemma_assoc_dom_len(users.entries_view());
            assert(string_map_view(users.view()).dom() =~= users.view().dom());
        }
        if users.len() == 0 {
            return Err(to_owned("No valid users found in htpasswd file"));
        }
        Ok(HtpasswdAuthProvider { users })
    }
}

impl AuthProvider for HtpasswdAuthProvider {
    /// Checks the password against the user's stored hash: `{SHA}` hashes are compared
    /// with the base64 SHA-1 of the password; bcrypt hashes are not supported in this
    /// build; an empty name or password fails.
    fn authenticate(&self, username: &str, password: &str) -> (r: AuthResult)
        ensures
            r.view() == htpasswd_decision(self.view(), username@, password@),
    {
        if username.is_empty() || password.is_empty() {
            return AuthResult::Failed;
        }
        match self.verify_password(username, password) {
            Ok(true) => AuthResult::Success(to_owned(username)),
            Ok(false) => AuthResult::Failed,
            Err(e) => AuthResult::Error(e),
        }
    }
}

/// Provider that accepts everyone.
#[derive(Clone, Default)]
pub struct NoOpAuthProvider;

impl AuthProvider for NoOpAuthProvider {
    /// Always succeeds with the given username.
    fn authenticate(&self, username: &str, password: &str) -> (r: AuthResult)
        ensures
            r.view() == AuthOutcome::Success(username@),
    {
        AuthResult::Success(to_owned(username))
    }
}

/// Provider for tests: any non-empty username with the password `test123`.
#[derive(Clone)]
pub struct MockAuthProvider;

impl AuthProvider for MockAuthProvider {
    /// Succeeds exactly for the password `test123` and a non-empty username.
    fn authenticate(&self, username: &str, password: &str) -> (r: AuthResult)
        ensures
            r.view() == (if password@ == "test123"@ && username@.len() > 0 {
                AuthOutcome::Success(username@)
            } else {
                AuthOutcome::Failed
            }),
    {
        if crate::text::str_eq(password, "test123") && !username.is_empty() {
            AuthResult::Success(to_owned(username))
        } else {
            AuthResult::Failed
        }
    }
}

} // verus!
