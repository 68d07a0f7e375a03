//! Path-based authorization with SVN-style authz files.
use vstd::prelude::*;
use crate::strmap::StrMap;
use crate::text::{chars_of, trim, starts_with, ends_with, split, split_once, find, concat2, to_owned};

verus! {

/// Access level for repository paths.
#[derive(Debug, Clone, Copy, PartialEq, Eq, Hash, Structural)]
pub enum AccessLevel {
    /// No access.
    NoAccess,
    /// Read-only access.
    Read,
    /// Read/write access.
    Write,
}

/// Outcome of an authorization check.
#[derive(Debug, Clone, PartialEq)]
pub enum AuthzResult {
    /// Access granted.
    Granted,
    /// Access denied.
    Denied,
    /// The check could not be made.
    Error(String),
}

/// Abstract value of an [`AuthzResult`].
pub enum AuthzOutcome {
    Granted,
    Denied,
    Error(Seq<char>),
}

impl AuthzResult {
    /// The result with its message as a character sequence.
    pub open spec fn view(&self) -> AuthzOutcome {
        match self {
            AuthzResult::Granted => AuthzOutcome::Granted,
            AuthzResult::Denied => AuthzOutcome::Denied,
            AuthzResult::Error(m) => AuthzOutcome::Error(m@),
        }
    }
}

/// The view of an optional user name.
pub open spec fn opt_view(u: Option<&str>) -> Option<Seq<char>> {
    match u {
        Some(s) => Some(s@),
        None => None,
    }
}

/// A source of authorization decisions.
pub trait AuthzProvider {
    /// The decision of this provider.
    spec fn decision(&self, username: Option<Seq<char>>, path: Seq<char>, required_level: AccessLevel) -> AuthzOutcome;

    /// Whether `username` may access `path` at `required_level`.
    fn check_access(&self, username: Option<&str>, path: &str, required_level: AccessLevel) -> (r: AuthzResult)
        ensures
            r.view() == self.decision(opt_view(username), path@, required_level),
    ;

    /// Whether `username` may read `path`.
    fn can_read(&self, username: Option<&str>, path: &str) -> (b: bool)
        ensures
            b == (self.decision(opt_view(username), path@, AccessLevel::Read) is Granted),
    {
        let r = self.check_access(username, path, AccessLevel::Read);
        match r {
            AuthzResult::Granted => true,
            _ => false,
        }
    }

    /// Whether `username` may write `path`.
    fn can_write(&self, username: Option<&str>, path: &str) -> (b: bool)
        ensures
            b == (self.decision(opt_view(username), path@, AccessLevel::Write) is Granted),
    {
        let r = self.check_access(username, path, AccessLevel::Write);
        match r {
            AuthzResult::Granted => true,
            _ => false,
        }
    }
}

/// Abstract access rule.
pub struct RuleView {
    pub path: Seq<char>,
    pub user: Option<Seq<char>>,
    pub group: Option<Seq<char>>,
    pub level: AccessLevel,
}

/// Access rule for a path and a user, group, or everyone.
#[derive(Debug)]
pub struct AccessRule {
    /// The section path the rule was given in.
    pub path: String,
    /// The user the rule names, if any.
    pub user: Option<String>,
    /// The group the rule names, if any.
    pub group: Option<String>,
    /// The level granted.
    pub level: AccessLevel,
}

/// The view of an optional string.
pub open spec fn ostr(o: Option<String>) -> Option<Seq<char>> {
    match o {
        Some(s) => Some(s@),
        None => None,
    }
}

impl AccessRule {
    /// The rule with its strings as character sequences.
    pub open spec fn view(&self) -> RuleView {
        RuleView { path: self.path@, user: ostr(self.user), group: ostr(self.group), level: self.level }
    }
}

/// `str::to_lowercase` of a string; a function of its characters alone.
pub uninterp spec fn lowercase(s: Seq<char>) -> Seq<char>;

/// `str::to_lowercase`, claimed to give `lowercase` of the characters.
#[verifier::external_body]
fn to_lowercase(s: &str) -> (r: String)
    ensures
        r@ == lowercase(s@),
{
    s.to_lowercase()
}

// ───────────────────────── parsing specs ─────────────────────────

/// The level that an access string stands for, if it is a valid one.
pub open spec fn level_of(s: Seq<char>) -> Option<AccessLevel> {
    if s == "r"@ || s == "read"@ {
        Some(AccessLevel::Read)
    } else if s == "rw"@ || s == "read-write"@ || s == "w"@ || s == "write"@ {
        Some(AccessLevel::Write)
    } else if s.len() == 0 {
        Some(AccessLevel::NoAccess)
    } else {
        None
    }
}

/// The members of a group definition's right-hand side: comma-separated, trimmed,
/// empty names dropped.
pub open spec fn group_members(rhs: Seq<char>) -> Set<Seq<char>> {
    Set::new(|u: Seq<char>| u.len() > 0 && exists|i: int| 0 <= i < split(rhs, ',').len() && trim(#[trigger] split(rhs, ',')[i]) == u)
}

/// Abstract state of the authz parser.
pub struct AuthzState {
    pub rules: Map<Seq<char>, Seq<RuleView>>,
    pub groups: Map<Seq<char>, Set<Seq<char>>>,
}

/// Reading a group definition line into the group table.
pub open spec fn group_line(line: Seq<char>, groups: Map<Seq<char>, Set<Seq<char>>>) -> Result<Map<Seq<char>, Set<Seq<char>>>, Seq<char>> {
    match split_once(line, seq!['=']) {
        None => Err("Invalid group definition: "@ + line),
        Some(parts) => {
            let name = trim(parts.0);
            let members = group_members(trim(parts.1));
            if name.len() == 0 {
                Err("Group name cannot be empty"@)
            } else if members == Set::<Seq<char>>::empty() {
                Err("No users in group: "@ + name)
            } else {
                Ok(groups.insert(name, members))
            }
        },
    }
}

/// The rule that an access line of section `path` gives, or its message.
pub open spec fn rule_line(path: Seq<char>, line: Seq<char>) -> Result<RuleView, Seq<char>> {
    match split_once(line, seq!['=']) {
        None => Err("Invalid access rule: "@ + line),
        Some(parts) => {
            let who = trim(parts.0);
            let access = lowercase(trim(parts.1));
            match level_of(access) {
                None => Err("Invalid access level: "@ + access),
                Some(level) => Ok(
                    if who.len() > 0 && who[0] == '@' {
                        RuleView { path, user: None, group: Some(who.drop_first()), level }
                    } else if who == "*"@ {
                        RuleView { path, user: None, group: None, level }
                    } else {
                        RuleView { path, user: Some(who), group: None, level }
                    },
                ),
            }
        },
    }
}

/// The rules of a section, empty where there are none.
pub open spec fn rules_at(rules: Map<Seq<char>, Seq<RuleView>>, key: Seq<char>) -> Seq<RuleView> {
    if rules.contains_key(key) {
        rules[key]
    } else {
        Seq::empty()
    }
}

/// The effect of one trimmed authz line: the next section and state, or a message.
/// `[name]` opens a section; in `[groups]` lines define groups; in other sections lines
/// are access rules; blank lines, comments and lines before any section change nothing.
pub open spec fn line_effect(
    line: Seq<char>,
    section: Option<Seq<char>>,
    st: AuthzState,
) -> Result<(Option<Seq<char>>, AuthzState), Seq<char>> {
    if line.len() == 0 || line[0] == '#' {
        Ok((section, st))
    } else if line[0] == '[' && line.last() == ']' && line.len() >= 2 {
        Ok((Some(line.subrange(1, line.len() - 1)), st))
    } else {
        match section {
            None => Ok((section, st)),
            Some(sec) => if sec == "groups"@ {
                match group_line(line, st.groups) {
                    Err(m) => Err(m),
                    Ok(g2) => Ok((section, AuthzState { rules: st.rules, groups: g2 })),
                }
            } else {
                match rule_line(sec, line) {
                    Err(m) => Err(m),
                    Ok(rule) => Ok((section, AuthzState {
                        rules: st.rules.insert(sec, rules_at(st.rules, sec).push(rule)),
                        groups: st.groups,
                    })),
                }
            },
        }
    }
}

/// Reading authz lines in order; the first bad line is reported.
pub open spec fn authz_lines(
    lines: Seq<Seq<char>>,
    section: Option<Seq<char>>,
    st: AuthzState,
) -> Result<AuthzState, Seq<char>>
    decreases lines.len(),
{
    if lines.len() == 0 {
        Ok(st)
    } else {
        match line_effect(trim(lines[0]), section, st) {
            Err(m) => Err(m),
            Ok(next) => authz_lines(lines.drop_first(), next.0, next.1),
        }
    }
}

/// What the authz parser gives for some content.
pub open spec fn authz_parse(content: Seq<char>) -> Result<AuthzState, Seq<char>> {
    authz_lines(split(content, '\n'), None, AuthzState { rules: Map::empty(), groups: Map::empty() })
}

// ──────────────────────── evaluation specs ───────────────────────

/// Position of the last `c` in `s`.
pub open spec fn last_index_of(s: Seq<char>, c: char) -> Option<int>
    decreases s.len(),
{
    if s.len() == 0 {
        None
    } else if s.last() == c {
        Some(s.len() - 1)
    } else {
        last_index_of(s.drop_last(), c)
    }
}

proof fn lemma_last_index_bound(s: Seq<char>, c: char)
    ensures
        last_index_of(s, c) matches Some(i) ==> 0 <= i < s.len() && s[i] == c && forall|j: int| i < j < s.len() ==> s[j] != c,
        last_index_of(s, c) is None ==> forall|j: int| 0 <= j < s.len() ==> s[j] != c,
    decreases s.len(),
{
    if s.len() > 0 && s.last() != c {
        let t = s.drop_last();
        lemma_last_index_bound(t, c);
        assert forall|j: int| 0 <= j < t.len() implies t[j] == s[j] by {}
        assert(s[s.len() - 1] != c);
    }
}

/// The successive parents of a path, cutting at the last `/` each time.
pub open spec fn parents(p: Seq<char>) -> Seq<Seq<char>>
    decreases p.len(),
{
    match last_index_of(p, '/') {
        None => Seq::empty(),
        Some(i) => if 0 <= i < p.len() {
            seq![p.subrange(0, i)] + parents(p.subrange(0, i))
        } else {
            Seq::empty()
        },
    }
}

/// The section key of a parent: the root for the empty parent.
pub open spec fn parent_key(q: Seq<char>) -> Seq<char> {
    if q.len() == 0 {
        "/"@
    } else {
        q
    }
}

/// The rules of the parents of a path, nearest first.
pub open spec fn parent_rules(rules: Map<Seq<char>, Seq<RuleView>>, ps: Seq<Seq<char>>) -> Seq<RuleView>
    decreases ps.len(),
{
    if ps.len() == 0 {
        Seq::empty()
    } else {
        rules_at(rules, parent_key(ps[0])) + parent_rules(rules, ps.drop_first())
    }
}

/// All rules that apply to `path`: its own section, its parents nearest first, then the
/// root section again unless the path is the root.
pub open spec fn applicable(rules: Map<Seq<char>, Seq<RuleView>>, path: Seq<char>) -> Seq<RuleView> {
    rules_at(rules, path) + parent_rules(rules, parents(path)) + (if path.len() > 0 && path != "/"@ {
        rules_at(rules, "/"@)
    } else {
        Seq::empty()
    })
}

/// How specific a rule is: the length of its section's path. The sections whose rules
/// apply to a path are the path itself and its parents (the root last), so the
/// longer a section's path, the nearer it encloses the path.
pub open spec fn specificity(rule: RuleView, path: Seq<char>) -> int {
    rule.path.len() as int
}

/// The greatest specificity among the rules of `rs` that name the user; `None` where
/// no rule names the user.
pub open spec fn best_class(
    rs: Seq<RuleView>,
    path: Seq<char>,
    username: Option<Seq<char>>,
    groups: Map<Seq<char>, Set<Seq<char>>>,
) -> Option<int>
    decreases rs.len(),
{
    if rs.len() == 0 {
        None
    } else {
        let before = best_class(rs.drop_last(), path, username, groups);
        let r = rs.last();
        if rule_matches(r, username, groups) {
            match before {
                Some(c) => if c >= specificity(r, path) { Some(c) } else { Some(specificity(r, path)) },
                None => Some(specificity(r, path)),
            }
        } else {
            before
        }
    }
}

/// The rule names the user: a named user, a member of the named group, or `*`,
/// which names every user, anonymous or not.
pub open spec fn rule_matches(rule: RuleView, username: Option<Seq<char>>, groups: Map<Seq<char>, Set<Seq<char>>>) -> bool {
    match (rule.user, rule.group) {
        (Some(u), None) => username == Some(u),
        (None, Some(g)) => match username {
            Some(n) => groups.contains_key(g) && groups[g].contains(n),
            None => false,
        },
        (None, None) => true,
        _ => false,
    }
}

/// The higher of two levels (write above read above none).
pub open spec fn max_level(a: AccessLevel, b: AccessLevel) -> AccessLevel {
    if a == AccessLevel::Write || b == AccessLevel::Write {
        AccessLevel::Write
    } else if a == AccessLevel::Read || b == AccessLevel::Read {
        AccessLevel::Read
    } else {
        AccessLevel::NoAccess
    }
}

/// The highest level among the rules of class `class` in `rs` that name the user;
/// `None` where no such rule names the user.
pub open spec fn class_level(
    rs: Seq<RuleView>,
    class: int,
    path: Seq<char>,
    username: Option<Seq<char>>,
    groups: Map<Seq<char>, Set<Seq<char>>>,
) -> Option<AccessLevel>
    decreases rs.len(),
{
    if rs.len() == 0 {
        None
    } else {
        let before = class_level(rs.drop_last(), class, path, username, groups);
        let r = rs.last();
        if specificity(r, path) == class && rule_matches(r, username, groups) {
            match before {
                None => Some(r.level),
                Some(l) => Some(max_level(l, r.level)),
            }
        } else {
            before
        }
    }
}

/// The level of the user at the path: among the rules that name the user, those of
/// the most specific section that has one decide, and the highest level they grant
/// wins; the default where no rule names the user.
pub open spec fn access_level(
    st: AuthzState,
    default: AccessLevel,
    username: Option<Seq<char>>,
    path: Seq<char>,
) -> AccessLevel {
    let rs = applicable(st.rules, path);
    match best_class(rs, path, username, st.groups) {
        Some(c) => match class_level(rs, c, path, username, st.groups) {
            Some(l) => l,
            None => default,
        },
        None => default,
    }
}

/// Whether a granted level covers a required one.
pub open spec fn covers(granted: AccessLevel, required: AccessLevel) -> bool {
    granted == AccessLevel::Write || (granted == AccessLevel::Read && required == AccessLevel::Read)
}

/// The set of the names in a vector of strings.
pub open spec fn name_set(v: Seq<String>) -> Set<Seq<char>> {
    Set::new(|u: Seq<char>| exists|i: int| 0 <= i < v.len() && #[trigger] v[i]@ == u)
}

/// Members of the group right-hand side `v[a..b]`, each non-empty and trimmed.
fn parse_members(v: &Vec<char>, a: usize, b: usize) -> (r: Vec<String>)
    requires
        a <= b <= v.len(),
    ensures
        name_set(r@) == group_members(v@.subrange(a as int, b as int)),
        forall|i: int| 0 <= i < r@.len() ==> (#[trigger] r@[i])@.len() > 0,
{
    let ghost rhs = v@.subrange(a as int, b as int);
    let ghost pieces = split(rhs, ',');
    let ranges = crate::text::split_ranges(v, a, b, ',');
    let mut out: Vec<String> = Vec::new();
    let mut i: usize = 0;
    while i < ranges.len()
        invariant
            i <= ranges@.len(),
            rhs == v@.subrange(a as int, b as int),
            pieces == split(rhs, ','),
            crate::text::ranges_match(v@, ranges@, pieces),
            forall|k: int| 0 <= k < out@.len() ==> (#[trigger] out@[k])@.len() > 0,
            name_set(out@) == Set::new(|u: Seq<char>| u.len() > 0 && exists|k: int| 0 <= k < i && trim(#[trigger] pieces[k]) == u),
        decreases ranges.len() - i,
    {
        let (x, y) = ranges[i];
        let t = crate::text::trimmed_string(v, x, y);
        let ghost before = out@;
        let ghost tv = t@;
        assert(tv == trim(pieces[i as int]));
        if !t.as_str().is_empty() {
            out.push(t);
        }
        proof {
            let old_set = Set::new(|u: Seq<char>| u.len() > 0 && exists|k: int| 0 <= k < i && trim(#[trigger] pieces[k]) == u);
            let new_set = Set::new(|u: Seq<char>| u.len() > 0 && exists|k: int| 0 <= k < i + 1 && trim(#[trigger] pieces[k]) == u);
            assert(name_set(before) == old_set);
            assert forall|u: Seq<char>| #[trigger] name_set(out@).contains(u) == new_set.contains(u) by {
                if name_set(out@).contains(u) {
                    let k = choose|k: int| 0 <= k < out@.len() && #[trigger] out@[k]@ == u;
                    if k < before.len() {
                        assert(before[k] == out@[k]);
                        assert(name_set(before).contains(u));
                        assert(old_set.contains(u));
                        let m = choose|m: int| 0 <= m < i && trim(#[trigger] pieces[m]) == u;
                        assert(0 <= m < i + 1 && trim(pieces[m]) == u);
                    } else {
                        assert(trim(pieces[i as int]) == u);
                    }
                }
                if new_set.contains(u) {
                    let m = choose|m: int| 0 <= m < i + 1 && trim(#[trigger] pieces[m]) == u;
                    if m < i {
                        assert(old_set.contains(u));
                        assert(name_set(before).contains(u));
                        let k = choose|k: int| 0 <= k < before.len() && #[trigger] before[k]@ == u;
                        assert(out@[k] == before[k]);
                    } else {
                        assert(out@[out@.len() - 1]@ == u);
                    }
                }
            }
            assert(name_set(out@) =~= new_set);
            assert forall|k: int| 0 <= k < out@.len() implies (#[trigger] out@[k])@.len() > 0 by {
                if k < before.len() {
                    assert(out@[k] == before[k]);
                }
            }
        }
        i = i + 1;
    }
    proof {
        let fin = Set::new(|u: Seq<char>| u.len() > 0 && exists|k: int| 0 <= k < i && trim(#[trigger] pieces[k]) == u);
        assert forall|u: Seq<char>| #[trigger] fin.contains(u) == group_members(rhs).contains(u) by {
            if group_members(rhs).contains(u) {
                let k = choose|k: int| 0 <= k < split(rhs, ',').len() && trim(#[trigger] split(rhs, ',')[k]) == u;
                assert(trim(pieces[k]) == u);
            }
        }
        assert(fin =~= group_members(rhs));
    }
    out
}

/// The abstract rule table.
pub open spec fn rules_view(m: Map<Seq<char>, Vec<AccessRule>>) -> Map<Seq<char>, Seq<RuleView>> {
    m.map_values(|v: Vec<AccessRule>| v@.map_values(|r: AccessRule| r.view()))
}

/// The abstract group table.
pub open spec fn groups_view(m: Map<Seq<char>, Vec<String>>) -> Map<Seq<char>, Set<Seq<char>>> {
    m.map_values(|v: Vec<String>| name_set(v@))
}

/// Reads the group line `v[a..b]` (already trimmed) into `groups`.
fn parse_group(v: &Vec<char>, a: usize, b: usize, groups: &mut StrMap<Vec<String>>) -> (r: Result<(), String>)
    requires
        a <= b <= v.len(),
        old(groups).wf(),
    ensures
        final(groups).wf(),
        match (r, group_line(v@.subrange(a as int, b as int), groups_view(old(groups).view()))) {
            (Ok(_), Ok(g)) => groups_view(final(groups).view()) == g,
            (Err(m), Err(msg)) => m@ == msg,
            _ => false,
        },
{
    let ghost line = v@.subrange(a as int, b as int);
    let eq = vec!['='];
    assert(eq@ =~= seq!['=']);
    match crate::text::find_sub(v, &eq, a, b) {
        None => {
            let l = crate::text::string_of_range(v, a, b);
            Err(concat2("Invalid group definition: ", l.as_str()))
        },
        Some(c) => {
            proof {
                let k = (c - a) as int;
                assert(line.subrange(0, k) =~= v@.subrange(a as int, c as int));
                assert(line.subrange(k + 1, line.len() as int) =~= v@.subrange(c + 1, b as int));
            }
            let name = crate::text::trimmed_string(v, a, c);
            let (ra, rb) = crate::text::trim_bounds(v, c + 1, b);
            if name.as_str().is_empty() {
                return Err(to_owned("Group name cannot be empty"));
            }
            let members = parse_members(v, ra, rb);
            if members.len() == 0 {
                proof {
                    assert(name_set(members@) =~= Set::<Seq<char>>::empty());
                }
                return Err(concat2("No users in group: ", name.as_str()));
            }
            proof {
                assert(name_set(members@).contains(members@[0]@));
                assert(name_set(members@) != Set::<Seq<char>>::empty());
            }
            let ghost nv = name@;
            let ghost mv = members@;
            let ghost before = groups.view();
            groups.insert(name, members);
            proof {
                assert(groups_view(groups.view()) =~= groups_view(before).insert(nv, name_set(mv)));
            }
            Ok(())
        },
    }
}

/// Reads the access line `v[a..b]` (already trimmed) of section `sec`.
fn parse_rule(sec: &String, v: &Vec<char>, a: usize, b: usize) -> (r: Result<AccessRule, String>)
    requires
        a <= b <= v.len(),
    ensures
        match (r, rule_line(sec@, v@.subrange(a as int, b as int))) {
            (Ok(rule), Ok(rv)) => rule.view() == rv,
            (Err(m), Err(msg)) => m@ == msg,
            _ => false,
        },
{
    let ghost line = v@.subrange(a as int, b as int);
    let eq = vec!['='];
    assert(eq@ =~= seq!['=']);
    match crate::text::find_sub(v, &eq, a, b) {
        None => {
            let l = crate::text::string_of_range(v, a, b);
            Err(concat2("Invalid access rule: ", l.as_str()))
        },
        Some(c) => {
            proof {
                let k = (c - a) as int;
                assert(line.subrange(0, k) =~= v@.subrange(a as int, c as int));
                assert(line.subrange(k + 1, line.len() as int) =~= v@.subrange(c + 1, b as int));
            }
            let (wa, wb) = crate::text::trim_bounds(v, a, c);
            let raw_access = crate::text::trimmed_string(v, c + 1, b);
            let access = to_lowercase(raw_access.as_str());
            let acc = access.as_str();
            let level = if crate::text::str_eq(acc, "r") || crate::text::str_eq(acc, "read") {
                AccessLevel::Read
            } else if crate::text::str_eq(acc, "rw") || crate::text::str_eq(acc, "read-write")
                || crate::text::str_eq(acc, "w") || crate::text::str_eq(acc, "write") {
                AccessLevel::Write
            } else if acc.is_empty() {
                AccessLevel::NoAccess
            } else {
                return Err(concat2("Invalid access level: ", acc));
            };
            let ghost who = v@.subrange(wa as int, wb as int);
            let star = vec!['*'];
            proof {
                reveal_strlit("*");
                assert(star@ =~= "*"@);
            }
            let rule = if wa < wb && v[wa] == '@' {
                let g = crate::text::string_of_range(v, wa + 1, wb);
                assert(g@ =~= who.drop_first());
                AccessRule { path: sec.clone(), user: None, group: Some(g), level }
            } else if crate::text::range_eq(v, wa, wb, &star) {
                AccessRule { path: sec.clone(), user: None, group: None, level }
            } else {
                let u = crate::text::string_of_range(v, wa, wb);
                AccessRule { path: sec.clone(), user: Some(u), group: None, level }
            };
            Ok(rule)
        },
    }
}

/// Position of the last `/` in `v[..end]`.
fn rfind_slash(v: &Vec<char>, end: usize) -> (r: Option<usize>)
    requires
        end <= v.len(),
    ensures
        match last_index_of(v@.subrange(0, end as int), '/') {
            Some(i) => r == Some(i as usize) && i < end,
            None => r is None,
        },
{
    let mut k = end;
    while k > 0
        invariant
            k <= end <= v.len(),
            last_index_of(v@.subrange(0, end as int), '/') == last_index_of(v@.subrange(0, k as int), '/'),
        decreases k,
    {
        assert(v@.subrange(0, k as int).drop_last() =~= v@.subrange(0, k - 1));
        if v[k - 1] == '/' {
            return Some(k - 1);
        }
        k = k - 1;
    }
    None
}

/// The higher of two levels.
fn higher(a: AccessLevel, b: AccessLevel) -> (r: AccessLevel)
    ensures
        r == max_level(a, b),
{
    match (a, b) {
        (AccessLevel::Write, _) | (_, AccessLevel::Write) => AccessLevel::Write,
        (AccessLevel::Read, _) | (_, AccessLevel::Read) => AccessLevel::Read,
        _ => AccessLevel::NoAccess,
    }
}

/// How specific a rule is: the length of its section's path.
fn rule_specificity(rule: &AccessRule, path: &str) -> (c: usize)
    ensures
        c as int == specificity(rule.view(), path@),
{
    chars_of(rule.path.as_str()).len()
}

/// Applies the trimmed line `v[a..b]` to the parser state.
fn apply_line(
    v: &Vec<char>,
    a: usize,
    b: usize,
    section: &mut Option<String>,
    rules: &mut StrMap<Vec<AccessRule>>,
    groups: &mut StrMap<Vec<String>>,
) -> (r: Result<(), String>)
    requires
        a <= b <= v.len(),
        old(rules).wf(),
        old(groups).wf(),
    ensures
        final(rules).wf(),
        final(groups).wf(),
        match (r, line_effect(
            v@.subrange(a as int, b as int),
            ostr(*old(section)),
            AuthzState { rules: rules_view(old(rules).view()), groups: groups_view(old(groups).view()) },
        )) {
            (Ok(_), Ok(next)) => next.0 == ostr(*final(section)) && next.1 == AuthzState {
                rules: rules_view(final(rules).view()),
                groups: groups_view(final(groups).view()),
            },
            (Err(m), Err(msg)) => m@ == msg,
            _ => false,
        },
{
    let ghost line = v@.subrange(a as int, b as int);
    if a == b || v[a] == '#' {
        return Ok(());
    }
    if v[a] == '[' && v[b - 1] == ']' && b - a >= 2 {
        let name = crate::text::string_of_range(v, a + 1, b - 1);
        assert(name@ =~= line.subrange(1, line.len() - 1));
        *section = Some(name);
        return Ok(());
    }
    match section {
        None => Ok(()),
        Some(sec) => {
            if crate::text::str_eq(sec.as_str(), "groups") {
                parse_group(v, a, b, groups)
            } else {
                match parse_rule(sec, v, a, b) {
                    Ok(rule) => {
                        let ghost secv = sec@;
                        let ghost rvw = rule.view();
                        let ghost before = rules_view(rules.view());
                        let existing = rules.remove(sec.as_str());
                        let mut list = match existing {
                            Some(l) => l,
                            None => Vec::new(),
                        };
                        let ghost lv = list@;
                        assert(lv.map_values(|r: AccessRule| r.view()) =~= rules_at(before, secv));
                        list.push(rule);
                        proof {
                            assert(list@.map_values(|r: AccessRule| r.view()) =~= rules_at(before, secv).push(rvw));
                        }
                        let ghost removed = rules.view();
                        rules.insert(sec.clone(), list);
                        proof {
                            assert(rules_view(rules.view()) =~= before.insert(secv, rules_at(before, secv).push(rvw)));
                        }
                        Ok(())
                    },
                    Err(m) => Err(m),
                }
            }
        },
    }
}

/// SVN-style authorization provider: rules per path section, groups of users, and a
/// default level for users that no rule names.
pub struct SvnAuthzProvider {
    rules: StrMap<Vec<AccessRule>>,
    groups: StrMap<Vec<String>>,
    default_access: AccessLevel,
}

impl SvnAuthzProvider {
    /// Both tables have distinct keys.
    #[verifier::type_invariant]
    pub closed spec fn wf(&self) -> bool {
        self.rules.wf() && self.groups.wf()
    }

    /// The parsed state.
    pub closed spec fn state(&self) -> AuthzState {
        AuthzState { rules: rules_view(self.rules.view()), groups: groups_view(self.groups.view()) }
    }

    /// The default level.
    pub closed spec fn default_level(&self) -> AccessLevel {
        self.default_access
    }

    /// The rule table.
    pub fn rules(&self) -> (r: &StrMap<Vec<AccessRule>>)
        ensures
            r.wf(),
            rules_view(r.view()) == self.state().rules,
    {
        proof {
            use_type_invariant(self);
        }
        &self.rules
    }

    /// The group table.
    pub fn groups(&self) -> (r: &StrMap<Vec<String>>)
        ensures
            r.wf(),
            groups_view(r.view()) == self.state().groups,
    {
        proof {
            use_type_invariant(self);
        }
        &self.groups
    }

    /// Parses authz content. Group references need not name a defined group: such a
    /// reference names nobody. The default level is no access.
    pub fn from_content(content: &str) -> (r: Result<Self, String>)
        ensures
            match (r, authz_parse(content@)) {
                (Ok(p), Ok(st)) => p.state() == st && p.default_level() == AccessLevel::NoAccess,
                (Err(m), Err(msg)) => m@ == msg,
                _ => false,
            },
    {
        Self::parse(content)
    }

    fn parse(content: &str) -> (r: Result<Self, String>)
        ensures
            match (r, authz_parse(content@)) {
                (Ok(p), Ok(st)) => p.state() == st && p.default_level() == AccessLevel::NoAccess,
                (Err(m), Err(msg)) => m@ == msg,
                _ => false,
            },
    {
        let v = chars_of(content);
        let ranges = crate::text::split_ranges(&v, 0, v.len(), '\n');
        let ghost lines = split(content@, '\n');
        assert(v@.subrange(0, v@.len() as int) =~= v@);
        let mut rules: StrMap<Vec<AccessRule>> = StrMap::new();
        let mut groups: StrMap<Vec<String>> = StrMap::new();
        let mut section: Option<String> = None;
        let ghost init = AuthzState { rules: Map::empty(), groups: Map::empty() };
        proof {
            assert(lines.skip(0) =~= lines);
            assert(rules_view(rules.view()) =~= Map::<Seq<char>, Seq<RuleView>>::empty());
            assert(groups_view(groups.view()) =~= Map::<Seq<char>, Set<Seq<char>>>::empty());
        }
        let mut i: usize = 0;
        while i < ranges.len()
            invariant
                i <= ranges@.len(),
                lines == split(content@, '\n'),
                init == (AuthzState { rules: Map::empty(), groups: Map::empty() }),
                v@ == content@,
                rules.wf(),
                groups.wf(),
                crate::text::ranges_match(v@, ranges@, lines),
                authz_lines(lines, None, init) == authz_lines(
                    lines.skip(i as int),
                    ostr(section),
                    AuthzState { rules: rules_view(rules.view()), groups: groups_view(groups.view()) },
                ),
            decreases ranges.len() - i,
        {
            let (ra, rb) = ranges[i];
            assert(v@.subrange(ra as int, rb as int) == lines[i as int]);
            assert(lines.skip(i as int).drop_first() =~= lines.skip(i + 1));
            assert(lines.skip(i as int)[0] == lines[i as int]);
            let (a, b) = crate::text::trim_bounds(&v, ra, rb);
            assert(trim(lines.skip(i as int)[0]) == v@.subrange(a as int, b as int));
            let ghost sec0 = ostr(section);
            let ghost st0 = AuthzState { rules: rules_view(rules.view()), groups: groups_view(groups.view()) };
            assert(lines.skip(i as int).len() > 0);
            match apply_line(&v, a, b, &mut section, &mut rules, &mut groups) {
                Ok(()) => {},
                Err(m) => {
                    assert(line_effect(v@.subrange(a as int, b as int), sec0, st0) is Err);
                    assert(authz_lines(lines.skip(i as int), sec0, st0) is Err);
                    assert(authz_lines(lines.skip(i as int), sec0, st0)->Err_0 == m@);
                    assert(authz_parse(content@) == authz_lines(lines, None, init));
                    return Err(m);
                },
            }
            i = i + 1;
        }
        proof {
            assert(lines.skip(i as int).len() == 0);
        }
        Ok(SvnAuthzProvider { rules, groups, default_access: AccessLevel::NoAccess })
    }

    /// Appends the rules of section `key` to `out`.
    fn push_rules_at<'a>(&'a self, key: &str, out: &mut Vec<&'a AccessRule>)
        ensures
            final(out)@.map_values(|r: &AccessRule| r.view()) == old(out)@.map_values(|r: &AccessRule| r.view())
                + rules_at(self.state().rules, key@),
    {
        proof {
            use_type_invariant(self);
        }
        let ghost before = out@;
        match self.rules.get(key) {
            Some(list) => {
                let mut k: usize = 0;
                while k < list.len()
                    invariant
                        k <= list@.len(),
                        out@.map_values(|r: &AccessRule| r.view()) == before.map_values(|r: &AccessRule| r.view())
                            + list@.subrange(0, k as int).map_values(|r: AccessRule| r.view()),
                    decreases list.len() - k,
                {
                    let ghost prev = out@;
                    out.push(&list[k]);
                    proof {
                        assert(out@.map_values(|r: &AccessRule| r.view()) =~= prev.map_values(|r: &AccessRule| r.view()).push(list@[k as int].view()));
                        assert(list@.subrange(0, k + 1).map_values(|r: AccessRule| r.view()) =~= list@.subrange(0, k as int).map_values(|r: AccessRule| r.view()).push(list@[k as int].view()));
                    }
                    k = k + 1;
                }
                proof {
                    assert(list@.subrange(0, list@.len() as int) =~= list@);
                    assert(self.state().rules[key@] == list@.map_values(|r: AccessRule| r.view()));
                }
            },
            None => {
                assert(out@.map_values(|r: &AccessRule| r.view()) =~= before.map_values(|r: &AccessRule| r.view()) + Seq::<RuleView>::empty());
            },
        }
    }

    /// All rules that apply to `path`, in the order of [`applicable`].
    fn applicable_rules<'a>(&'a self, path: &str) -> (out: Vec<&'a AccessRule>)
        ensures
            out@.map_values(|r: &AccessRule| r.view()) == applicable(self.state().rules, path@),
    {
        let ghost rules = self.state().rules;
        let mut out: Vec<&AccessRule> = Vec::new();
        assert(out@.map_values(|r: &AccessRule| r.view()) =~= Seq::<RuleView>::empty());
        self.push_rules_at(path, &mut out);
        let p = chars_of(path);
        let mut end = p.len();
        let ghost head = out@.map_values(|r: &AccessRule| r.view());
        assert(p@.subrange(0, end as int) =~= path@);
        assert(out@.map_values(|r: &AccessRule| r.view()) =~= head + Seq::<RuleView>::empty());
        assert(parent_rules(rules, parents(path@)) =~= Seq::<RuleView>::empty() + parent_rules(rules, parents(p@.subrange(0, end as int))));
        loop
            invariant
                end <= p@.len(),
                p@ == path@,
                rules == self.state().rules,
                out@.map_values(|r: &AccessRule| r.view()) + parent_rules(rules, parents(p@.subrange(0, end as int)))
                    == rules_at(rules, path@) + parent_rules(rules, parents(path@)),
            ensures
                out@.map_values(|r: &AccessRule| r.view()) == rules_at(rules, path@) + parent_rules(rules, parents(path@)),
            decreases end,
        {
            let ghost q = p@.subrange(0, end as int);
            match rfind_slash(&p, end) {
                None => {
                    assert(parents(q) =~= Seq::<Seq<char>>::empty());
                    assert(out@.map_values(|r: &AccessRule| r.view()) =~= out@.map_values(|r: &AccessRule| r.view()) + parent_rules(rules, parents(q)));
                    break;
                },
                Some(pos) => {
                    proof {
                        lemma_last_index_bound(q, '/');
                        assert(q.subrange(0, pos as int) =~= p@.subrange(0, pos as int));
                    }
                    let ghost before = out@.map_values(|r: &AccessRule| r.view());
                    if pos == 0 {
                        self.push_rules_at("/", &mut out);
                        proof {
                            assert(parent_key(p@.subrange(0, 0)) == "/"@);
                        }
                    } else {
                        let key = crate::text::string_of_range(&p, 0, pos);
                        self.push_rules_at(key.as_str(), &mut out);
                    }
                    proof {
                        let ps = parents(q);
                        assert(ps == seq![p@.subrange(0, pos as int)] + parents(p@.subrange(0, pos as int)));
                        assert(ps.drop_first() =~= parents(p@.subrange(0, pos as int)));
                        assert(parent_rules(rules, ps) == rules_at(rules, parent_key(p@.subrange(0, pos as int))) + parent_rules(rules, ps.drop_first()));
                        assert(out@.map_values(|r: &AccessRule| r.view()) + parent_rules(rules, parents(p@.subrange(0, pos as int)))
                            =~= before + parent_rules(rules, ps));
                    }
                    end = pos;
                },
            }
        }
        let ghost mid = out@.map_values(|r: &AccessRule| r.view());
        if !path.is_empty() && !crate::text::str_eq(path, "/") {
            self.push_rules_at("/", &mut out);
            assert(out@.map_values(|r: &AccessRule| r.view()) =~= applicable(rules, path@));
        } else {
            assert(out@.map_values(|r: &AccessRule| r.view()) =~= mid + Seq::<RuleView>::empty());
        }
        out
    }

    /// Whether a group lists a user.
    fn group_has(&self, group: &str, user: &str) -> (b: bool)
        ensures
            b == (self.state().groups.contains_key(group@) && self.state().groups[group@].contains(user@)),
    {
        proof {
            use_type_invariant(self);
        }
        match self.groups.get(group) {
            None => false,
            Some(members) => {
                let mut k: usize = 0;
                while k < members.len()
                    invariant
                        k <= members@.len(),
                        self.groups.view().contains_key(group@),
                        self.groups.view()[group@] == *members,
                        forall|j: int| 0 <= j < k ==> #[trigger] members@[j]@ != user@,
                    decreases members.len() - k,
                {
                    if crate::text::str_eq(members[k].as_str(), user) {
                        assert(members@[k as int]@ == user@);
                        assert(name_set(members@).contains(user@));
                        assert(self.state().groups[group@] == name_set(members@));
                        return true;
                    }
                    k = k + 1;
                }
                assert(!name_set(members@).contains(user@));
                assert(self.state().groups[group@] == name_set(members@));
                false
            },
        }
    }

    /// Whether `rule` names the user.
    fn matches_user(&self, rule: &AccessRule, username: Option<&str>) -> (b: bool)
        ensures
            b == rule_matches(rule.view(), opt_view(username), self.state().groups),
    {
        match (&rule.user, &rule.group) {
            (Some(u), None) => match username {
                Some(n) => crate::text::str_eq(n, u.as_str()),
                None => false,
            },
            (None, Some(g)) => match username {
                Some(n) => self.group_has(g.as_str(), n),
                None => false,
            },
            (None, None) => true,
            _ => false,
        }
    }

    /// The highest level among `rs` from rules of class `class` that name the user.
    fn class_level_in(&self, rs: &Vec<&AccessRule>, class: usize, path: &str, username: Option<&str>) -> (r: Option<AccessLevel>)
        ensures
            r == class_level(rs@.map_values(|x: &AccessRule| x.view()), class as int, path@, opt_view(username), self.state().groups),
    {
        let ghost all = rs@.map_values(|x: &AccessRule| x.view());
        let mut acc: Option<AccessLevel> = None;
        let mut k: usize = 0;
        assert(all.take(0) =~= Seq::<RuleView>::empty());
        while k < rs.len()
            invariant
                k <= rs@.len(),
                all == rs@.map_values(|x: &AccessRule| x.view()),
                acc == class_level(all.take(k as int), class as int, path@, opt_view(username), self.state().groups),
            decreases rs.len() - k,
        {
            let rule = rs[k];
            assert(all.take(k + 1).drop_last() =~= all.take(k as int));
            assert(all.take(k + 1).last() == rule.view());
            let sp = rule_specificity(rule, path);
            if sp == class && self.matches_user(rule, username) {
                acc = match acc {
                    None => Some(rule.level),
                    Some(l) => Some(higher(l, rule.level)),
                };
            }
            k = k + 1;
        }
        assert(all.take(rs@.len() as int) =~= all);
        acc
    }

    /// The greatest specificity among `rs` of the rules that name the user.
    fn best_class_in(&self, rs: &Vec<&AccessRule>, path: &str, username: Option<&str>) -> (r: Option<usize>)
        ensures
            r matches Some(c) ==> best_class(rs@.map_values(|x: &AccessRule| x.view()), path@, opt_view(username), self.state().groups) == Some(c as int),
            r is None ==> best_class(rs@.map_values(|x: &AccessRule| x.view()), path@, opt_view(username), self.state().groups) is None,
    {
        let ghost all = rs@.map_values(|x: &AccessRule| x.view());
        let mut acc: Option<usize> = None;
        let mut k: usize = 0;
        assert(all.take(0) =~= Seq::<RuleView>::empty());
        while k < rs.len()
            invariant
                k <= rs@.len(),
                all == rs@.map_values(|x: &AccessRule| x.view()),
                acc matches Some(c) ==> best_class(all.take(k as int), path@, opt_view(username), self.state().groups) == Some(c as int),
                acc is None ==> best_class(all.take(k as int), path@, opt_view(username), self.state().groups) is None,
            decreases rs.len() - k,
        {
            let rule = rs[k];
            assert(all.take(k + 1).drop_last() =~= all.take(k as int));
            assert(all.take(k + 1).last() == rule.view());
            if self.matches_user(rule, username) {
                let sp = rule_specificity(rule, path);
                acc = match acc {
                    Some(c) => if c >= sp { Some(c) } else { Some(sp) },
                    None => Some(sp),
                };
            }
            k = k + 1;
        }
        assert(all.take(rs@.len() as int) =~= all);
        acc
    }

    /// The level of a user at a path.
    fn find_access_level(&self, username: Option<&str>, path: &str) -> (l: AccessLevel)
        ensures
            l == access_level(self.state(), self.default_level(), opt_view(username), path@),
    {
        let rs = self.applicable_rules(path);
        match self.best_class_in(&rs, path, username) {
            Some(c) => match self.class_level_in(&rs, c, path, username) {
                Some(l) => l,
                None => self.default_access,
            },
            None => self.default_access,
        }
    }

    /// The same provider with another default level.
    pub fn with_default_access(self, default: AccessLevel) -> (r: Self)
        ensures
            r.state() == self.state(),
            r.default_level() == default,
    {
        proof {
            use_type_invariant(&self);
        }
        SvnAuthzProvider { rules: self.rules, groups: self.groups, default_access: default }
    }
}

impl AuthzProvider for SvnAuthzProvider {
    open spec fn decision(&self, username: Option<Seq<char>>, path: Seq<char>, required_level: AccessLevel) -> AuthzOutcome {
        if covers(access_level(self.state(), self.default_level(), username, path), required_level) {
            AuthzOutcome::Granted
        } else {
            AuthzOutcome::Denied
        }
    }

    /// Granted when the user's level at the path covers the required level: write
    /// covers both, read covers read.
    fn check_access(&self, username: Option<&str>, path: &str, required_level: AccessLevel) -> (r: AuthzResult) {
        let granted = self.find_access_level(username, path);
        let ok = match (granted, required_level) {
            (AccessLevel::Write, _) => true,
            (AccessLevel::Read, AccessLevel::Read) => true,
            _ => false,
        };
        if ok {
            AuthzResult::Granted
        } else {
            AuthzResult::Denied
        }
    }
}

/// Provider that grants everything.
#[derive(Clone, Default)]
pub struct NoOpAuthzProvider;

impl AuthzProvider for NoOpAuthzProvider {
    open spec fn decision(&self, username: Option<Seq<char>>, path: Seq<char>, required_level: AccessLevel) -> AuthzOutcome {
        AuthzOutcome::Granted
    }

    fn check_access(&self, username: Option<&str>, path: &str, required_level: AccessLevel) -> (r: AuthzResult) {
        AuthzResult::Granted
    }
}

/// Provider that denies everything.
#[derive(Clone, Default)]
pub struct DenyAllAuthzProvider;

impl AuthzProvider for DenyAllAuthzProvider {
    open spec fn decision(&self, username: Option<Seq<char>>, path: Seq<char>, required_level: AccessLevel) -> AuthzOutcome {
        AuthzOutcome::Denied
    }

    fn check_access(&self, username: Option<&str>, path: &str, required_level: AccessLevel) -> (r: AuthzResult) {
        AuthzResult::Denied
    }
}

/// Provider for tests: `admin` may do everything, `user` may read, anonymous users may
/// read paths that begin with `/public`, everyone else is denied.
#[derive(Clone)]
pub struct MockAuthzProvider;

impl AuthzProvider for MockAuthzProvider {
    open spec fn decision(&self, username: Option<Seq<char>>, path: Seq<char>, required_level: AccessLevel) -> AuthzOutcome {
        match username {
            Some(u) => if u == "admin"@ {
                AuthzOutcome::Granted
            } else if u == "user"@ && required_level == AccessLevel::Read {
                AuthzOutcome::Granted
            } else {
                AuthzOutcome::Denied
            },
            None => if starts_with(path, "/public"@) && required_level == AccessLevel::Read {
                AuthzOutcome::Granted
            } else {
                AuthzOutcome::Denied
            },
        }
    }

    fn check_access(&self, username: Option<&str>, path: &str, required_level: AccessLevel) -> (r: AuthzResult) {
        match username {
            Some(u) => {
                if crate::text::str_eq(u, "admin") {
                    AuthzResult::Granted
                } else if crate::text::str_eq(u, "user") {
                    if required_level == AccessLevel::Read {
                        AuthzResult::Granted
                    } else {
                        AuthzResult::Denied
                    }
                } else {
                    AuthzResult::Denied
                }
            },
            None => {
                if crate::text::str_starts_with(path, "/public") && required_level == AccessLevel::Read {
                    AuthzResult::Granted
                } else {
                    AuthzResult::Denied
                }
            },
        }
    }
}

} // verus!
