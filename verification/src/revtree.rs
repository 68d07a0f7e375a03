//! The file tree of a revision as a map from paths to entries: how the changes of a
//! revision apply to it, and what a file lookup and a directory listing read from it.
use vstd::prelude::*;
use crate::object::{TreeEntry, TreeChange, DeltaTree, ObjectKind};
use crate::strmap::StrMap;
use crate::text::{starts_with, str_starts_with, concat2, to_owned};

verus! {

/// An entry as plain values: name, object id, kind and mode.
pub type EntryView = (Seq<char>, Seq<u8>, ObjectKind, u32);

/// The plain values of an entry.
pub open spec fn entry_view(e: TreeEntry) -> EntryView {
    (e.name@, e.id@, e.kind, e.mode)
}

/// A tree as plain values.
pub open spec fn tree_view(m: Map<Seq<char>, TreeEntry>) -> Map<Seq<char>, EntryView> {
    m.map_values(|e: TreeEntry| entry_view(e))
}

/// The path `k` lies below the directory `p`.
pub open spec fn below(k: Seq<char>, p: Seq<char>) -> bool {
    starts_with(k, p.push('/'))
}

/// The tree after one change: an upsert sets its path; a deletion removes its path
/// and everything below it.
pub open spec fn apply_change(t: Map<Seq<char>, EntryView>, c: TreeChange) -> Map<Seq<char>, EntryView> {
    match c {
        TreeChange::Upsert { path, entry } => t.insert(path@, entry_view(entry)),
        TreeChange::Delete { path } => Map::new(
            |k: Seq<char>| t.dom().contains(k) && k != path@ && !below(k, path@),
            |k: Seq<char>| t[k],
        ),
    }
}

/// The tree after the changes `cs`, in order.
pub open spec fn apply_changes(t: Map<Seq<char>, EntryView>, cs: Seq<TreeChange>) -> Map<Seq<char>, EntryView>
    decreases cs.len(),
{
    if cs.len() == 0 {
        t
    } else {
        apply_change(apply_changes(t, cs.drop_last()), cs.last())
    }
}

/// A copy of an entry.
fn copy_entry(e: &TreeEntry) -> (r: TreeEntry)
    ensures
        entry_view(r) == entry_view(*e),
{
    TreeEntry { name: to_owned(e.name.as_str()), id: e.id, kind: e.kind, mode: e.mode }
}

/// Applies one change to a tree.
pub fn apply_tree_change(tree: &mut StrMap<TreeEntry>, change: &TreeChange)
    requires
        old(tree).wf(),
    ensures
        final(tree).wf(),
        tree_view(final(tree)@) == apply_change(tree_view(old(tree)@), *change),
{
    match change {
        TreeChange::Upsert { path, entry } => {
            let e = copy_entry(entry);
            tree.insert(to_owned(path.as_str()), e);
            assert(tree_view(tree@) =~= apply_change(tree_view(old(tree)@), *change));
        },
        TreeChange::Delete { path } => {
            tree.remove(path.as_str());
            let ghost t1 = tree@;
            let pfx = concat2(path.as_str(), "/");
            assert(pfx@ == path@.push('/')) by {
                reveal_strlit("/");
                assert("/"@ =~= seq!['/']);
                assert(path@ + "/"@ =~= path@.push('/'));
            }
            let keys = tree.keys();
            let ghost ks = tree.keys_view();
            proof {
                let es = tree.entries_view();
                assert forall|k: Seq<char>| t1.contains_key(k) implies exists|j: int| 0 <= j < ks.len() && #[trigger] ks[j] == k by {
                    let j = choose|j: int| 0 <= j < es.len() && #[trigger] es[j].0@ == k;
                    assert(ks[j] == k);
                }
            }
            let mut i: usize = 0;
            while i < keys.len()
                invariant
                    i <= keys@.len(),
                    keys@.len() == ks.len(),
                    forall|j: int| 0 <= j < keys@.len() ==> #[trigger] keys@[j]@ == ks[j],
                    forall|k: Seq<char>| t1.contains_key(k) ==> exists|j: int| 0 <= j < ks.len() && #[trigger] ks[j] == k,
                    pfx@ == path@.push('/'),
                    tree.wf(),
                    forall|k: Seq<char>| #[trigger] tree@.contains_key(k) <==> (t1.contains_key(k) && !(below(k, path@)
                        && exists|j: int| 0 <= j < i && #[trigger] ks[j] == k)),
                    forall|k: Seq<char>| #[trigger] tree@.contains_key(k) ==> tree@[k] == t1[k],
                decreases keys@.len() - i,
            {
                let ghost before = tree@;
                if str_starts_with(keys[i].as_str(), pfx.as_str()) {
                    tree.remove(keys[i].as_str());
                }
                proof {
                    assert forall|k: Seq<char>| #[trigger] tree@.contains_key(k) <==> (t1.contains_key(k) && !(below(
                        k,
                        path@,
                    ) && exists|j: int| 0 <= j < i + 1 && #[trigger] ks[j] == k)) by {
                        if k == ks[i as int] {
                            assert(keys@[i as int]@ == k);
                        } else {
                            if exists|j: int| 0 <= j < i + 1 && #[trigger] ks[j] == k {
                                let j = choose|j: int| 0 <= j < i + 1 && #[trigger] ks[j] == k;
                                assert(j < i);
                            }
                        }
                    }
                }
                i = i + 1;
            }
            proof {
                let target = apply_change(tree_view(old(tree)@), *change);
                assert forall|k: Seq<char>| #[trigger] tree_view(tree@).contains_key(k) <==> target.contains_key(k) by {
                    if t1.contains_key(k) && below(k, path@) {
                        let j = choose|j: int| 0 <= j < ks.len() && #[trigger] ks[j] == k;
                        assert(exists|j2: int| 0 <= j2 < i && #[trigger] ks[j2] == k);
                    }
                }
                assert(tree_view(tree@) =~= target);
            }
        },
    }
}

/// Applies changes to a tree, in order.
pub fn apply_tree_changes(tree: &mut StrMap<TreeEntry>, changes: &Vec<TreeChange>)
    requires
        old(tree).wf(),
    ensures
        final(tree).wf(),
        tree_view(final(tree)@) == apply_changes(tree_view(old(tree)@), changes@),
{
    let ghost start = tree_view(tree@);
    let mut i: usize = 0;
    while i < changes.len()
        invariant
            i <= changes@.len(),
            tree.wf(),
            tree_view(tree@) == apply_changes(start, changes@.subrange(0, i as int)),
        decreases changes@.len() - i,
    {
        apply_tree_change(tree, &changes[i]);
        assert(changes@.subrange(0, i + 1).drop_last() =~= changes@.subrange(0, i as int));
        i = i + 1;
    }
    assert(changes@.subrange(0, i as int) =~= changes@);
}


/// The tree at the end of a chain of deltas collected newest first: the deltas
/// applied to `t` oldest first.
pub open spec fn chain_tree(t: Map<Seq<char>, EntryView>, chain: Seq<DeltaTree>) -> Map<Seq<char>, EntryView>
    decreases chain.len(),
{
    if chain.len() == 0 {
        t
    } else {
        chain_tree(apply_changes(t, chain.last().changes@), chain.drop_last())
    }
}

/// Applies a chain of deltas, collected newest first, to a base tree, oldest first.
pub fn apply_delta_chain(tree: &mut StrMap<TreeEntry>, chain: &Vec<DeltaTree>)
    requires
        old(tree).wf(),
    ensures
        final(tree).wf(),
        tree_view(final(tree)@) == chain_tree(tree_view(old(tree)@), chain@),
{
    let ghost goal = chain_tree(tree_view(tree@), chain@);
    let mut j: usize = chain.len();
    assert(chain@.subrange(0, j as int) =~= chain@);
    while j > 0
        invariant
            j <= chain@.len(),
            tree.wf(),
            goal == chain_tree(tree_view(tree@), chain@.subrange(0, j as int)),
        decreases j,
    {
        let ghost c = chain@.subrange(0, j as int);
        assert(c.last() == chain@[j - 1]);
        assert(c.drop_last() =~= chain@.subrange(0, j - 1));
        apply_tree_changes(tree, &chain[j - 1].changes);
        j = j - 1;
    }
}

/// `s` without the slashes at its start.
pub open spec fn drop_leading_slashes(s: Seq<char>) -> Seq<char>
    decreases s.len(),
{
    if s.len() > 0 && s[0] == '/' {
        drop_leading_slashes(s.drop_first())
    } else {
        s
    }
}

/// `s` without the slashes at its end.
pub open spec fn drop_trailing_slashes(s: Seq<char>) -> Seq<char>
    decreases s.len(),
{
    if s.len() > 0 && s.last() == '/' {
        drop_trailing_slashes(s.drop_last())
    } else {
        s
    }
}

/// Where the slashes at the start of `v[from..to]` end.
fn skip_leading_slashes(v: &Vec<char>, from: usize, to: usize) -> (i: usize)
    requires
        from <= to <= v.len(),
    ensures
        from <= i <= to,
        v@.subrange(i as int, to as int) == drop_leading_slashes(v@.subrange(from as int, to as int)),
{
    let mut i = from;
    while i < to && v[i] == '/'
        invariant
            from <= i <= to <= v.len(),
            drop_leading_slashes(v@.subrange(i as int, to as int)) == drop_leading_slashes(
                v@.subrange(from as int, to as int),
            ),
        decreases to - i,
    {
        assert(v@.subrange(i as int, to as int).drop_first() =~= v@.subrange(i + 1, to as int));
        i = i + 1;
    }
    i
}

/// Where the slashes at the end of `v[from..to]` begin.
fn skip_trailing_slashes(v: &Vec<char>, from: usize, to: usize) -> (j: usize)
    requires
        from <= to <= v.len(),
    ensures
        from <= j <= to,
        v@.subrange(from as int, j as int) == drop_trailing_slashes(v@.subrange(from as int, to as int)),
{
    let mut j = to;
    while j > from && v[j - 1] == '/'
        invariant
            from <= j <= to <= v.len(),
            drop_trailing_slashes(v@.subrange(from as int, j as int)) == drop_trailing_slashes(
                v@.subrange(from as int, to as int),
            ),
        decreases j,
    {
        assert(v@.subrange(from as int, j as int).drop_last() =~= v@.subrange(from as int, j - 1));
        j = j - 1;
    }
    j
}

/// The message for a path that is not a file of the tree.
pub open spec fn path_not_found(path: Seq<char>) -> Seq<char> {
    "Path not found: "@ + path
}

/// The entry of the file at `path` (its leading slashes dropped): the entry where
/// the tree has one there and it is a file; otherwise the error names the path. The
/// caller reads the file's object.
pub fn file_entry(tree: &StrMap<TreeEntry>, path: &str) -> (r: Result<TreeEntry, String>)
    requires
        tree.wf(),
    ensures
        ({
            let fp = drop_leading_slashes(path@);
            match r {
                Ok(e) => tree@.contains_key(fp) && tree@[fp].kind == ObjectKind::Blob && entry_view(e)
                    == entry_view(tree@[fp]),
                Err(m) => !(tree@.contains_key(fp) && tree@[fp].kind == ObjectKind::Blob) && m@ == path_not_found(
                    path@,
                ),
            }
        }),
{
    let cs = crate::text::chars_of(path);
    let i = skip_leading_slashes(&cs, 0, cs.len());
    assert(cs@.subrange(0, cs@.len() as int) =~= path@);
    let fp = crate::text::string_of_range(&cs, i, cs.len());
    match tree.get(fp.as_str()) {
        Some(e) => {
            if e.kind == ObjectKind::Blob {
                return Ok(copy_entry(e));
            }
        },
        None => {},
    }
    Err(concat2("Path not found: ", path))
}


// ─────────────────────────── directory listings ───────────────────────────

/// Where the text of `s` from `i` on reaches its first slash, or the end.
pub open spec fn segment_end(s: Seq<char>, i: nat) -> nat
    decreases s.len() - i,
{
    if i >= s.len() || s[i as int] == '/' {
        i
    } else {
        segment_end(s, i + 1)
    }
}

/// The text of `s` before its first slash, or all of it.
pub open spec fn first_segment(s: Seq<char>) -> Seq<char> {
    s.subrange(0, segment_end(s, 0) as int)
}

/// The name that the path `k` gives in a listing of the directory `pfx`: its first
/// segment where the directory is the root, else the first segment after the
/// directory and a slash where the path lies below it.
pub open spec fn child_name(k: Seq<char>, pfx: Seq<char>) -> Option<Seq<char>> {
    if pfx.len() == 0 {
        Some(first_segment(k))
    } else if below(k, pfx) {
        Some(first_segment(k.subrange(pfx.len() + 1int, k.len() as int)))
    } else {
        None
    }
}

/// The names a listing of the directory `pfx` gives for the paths `dom`.
pub open spec fn dir_names(dom: Set<Seq<char>>, pfx: Seq<char>) -> Set<Seq<char>> {
    Set::new(|n: Seq<char>| exists|k: Seq<char>| #[trigger] dom.contains(k) && child_name(k, pfx) == Some(n))
}

/// Names strictly increase along `s`.
pub open spec fn sorted_names(s: Seq<String>) -> bool {
    forall|i: int, j: int| 0 <= i < j < s.len() ==> crate::object::lex_lt(#[trigger] s[i]@, #[trigger] s[j]@)
}

/// The names in `s`.
pub open spec fn names_set(s: Seq<String>) -> Set<Seq<char>> {
    Set::new(|n: Seq<char>| exists|i: int| 0 <= i < s.len() && #[trigger] s[i]@ == n)
}

/// The text of `v[from..]` before its first slash.
fn segment_from(v: &Vec<char>, from: usize) -> (s: String)
    requires
        from <= v.len(),
    ensures
        s@ == first_segment(v@.subrange(from as int, v@.len() as int)),
{
    let ghost w = v@.subrange(from as int, v@.len() as int);
    let mut i = from;
    while i < v.len() && v[i] != '/'
        invariant
            from <= i <= v@.len(),
            w == v@.subrange(from as int, v@.len() as int),
            segment_end(w, 0) == segment_end(w, (i - from) as nat),
        decreases v@.len() - i,
    {
        assert(w[i - from] == v@[i as int]);
        i = i + 1;
    }
    if i < v.len() {
        assert(w[i - from] == v@[i as int]);
    }
    assert(segment_end(w, (i - from) as nat) == i - from);
    assert(w.subrange(0, (i - from) as int) =~= v@.subrange(from as int, i as int));
    crate::text::string_of_range(v, from, i)
}

/// Whether `v` lies below the directory `p`.
fn is_below(v: &Vec<char>, p: &Vec<char>) -> (b: bool)
    ensures
        b == below(v@, p@),
{
    if v.len() <= p.len() {
        return false;
    }
    let mut i: usize = 0;
    while i < p.len()
        invariant
            i <= p@.len() < v@.len(),
            forall|j: int| 0 <= j < i ==> v@[j] == p@[j],
        decreases p@.len() - i,
    {
        if v[i] != p[i] {
            assert(v@.subrange(0, p@.len() + 1int)[i as int] != p@.push('/')[i as int]);
            return false;
        }
        i = i + 1;
    }
    if v[p.len()] != '/' {
        assert(v@.subrange(0, p@.len() + 1int)[p@.len() as int] != p@.push('/')[p@.len() as int]);
        return false;
    }
    assert(v@.subrange(0, p@.len() + 1int) =~= p@.push('/'));
    true
}

/// Where `n` stands among sorted names, or where it would be inserted.
fn locate_name(names: &Vec<String>, n: &Vec<char>) -> (r: (usize, bool))
    requires
        sorted_names(names@),
    ensures
        r.0 <= names@.len(),
        r.1 ==> r.0 < names@.len() && names@[r.0 as int]@ == n@,
        !r.1 ==> forall|j: int| 0 <= j < r.0 ==> crate::object::lex_lt(#[trigger] names@[j]@, n@),
        !r.1 ==> forall|j: int| r.0 <= j < names@.len() ==> crate::object::lex_lt(n@, #[trigger] names@[j]@),
{
    let mut i: usize = 0;
    while i < names.len()
        invariant
            i <= names@.len(),
            sorted_names(names@),
            forall|j: int| 0 <= j < i ==> crate::object::lex_lt(#[trigger] names@[j]@, n@),
        decreases names@.len() - i,
    {
        let e = crate::text::chars_of(names[i].as_str());
        match crate::object::compare_names(&e, n) {
            crate::object::Rel::Eq => {
                return (i, true);
            },
            crate::object::Rel::Gt => {
                assert forall|j: int| i <= j < names@.len() implies crate::object::lex_lt(n@, #[trigger] names@[j]@) by {
                    if j > i {
                        crate::object::lemma_lex_trans(n@, names@[i as int]@, names@[j]@);
                    }
                }
                return (i, false);
            },
            crate::object::Rel::Lt => {},
        }
        i = i + 1;
    }
    (i, false)
}

/// Adds a name to sorted names, where it is not there yet.
fn add_name(names: &mut Vec<String>, n: String)
    requires
        sorted_names(old(names)@),
    ensures
        sorted_names(final(names)@),
        names_set(final(names)@) == names_set(old(names)@).insert(n@),
{
    let nc = crate::text::chars_of(n.as_str());
    let (pos, found) = locate_name(names, &nc);
    let ghost before = names@;
    let ghost nv = n@;
    if found {
        assert(names_set(names@) =~= names_set(before).insert(nv));
        return;
    }
    names.insert(pos, n);
    proof {
        let after = names@;
        assert(after == before.insert(pos as int, after[pos as int]));
        assert forall|i: int, j: int| 0 <= i < j < after.len() implies crate::object::lex_lt(
            #[trigger] after[i]@,
            #[trigger] after[j]@,
        ) by {
            if j < pos {
            } else if j == pos {
            } else if i < pos {
                assert(after[j] == before[j - 1]);
                crate::object::lemma_lex_trans(after[i]@, nv, after[j]@);
            } else if i == pos {
                assert(after[j] == before[j - 1]);
            } else {
                assert(after[i] == before[i - 1]);
                assert(after[j] == before[j - 1]);
            }
        }
        assert forall|x: Seq<char>| #[trigger] names_set(after).contains(x) <==> names_set(before).insert(nv).contains(x) by {
            if names_set(after).contains(x) {
                let i = choose|i: int| 0 <= i < after.len() && #[trigger] after[i]@ == x;
                if i < pos {
                    assert(after[i] == before[i]);
                } else if i > pos {
                    assert(after[i] == before[i - 1]);
                }
            }
            if names_set(before).contains(x) {
                let i = choose|i: int| 0 <= i < before.len() && #[trigger] before[i]@ == x;
                if i < pos {
                    assert(after[i] == before[i]);
                } else {
                    assert(after[i + 1] == before[i]);
                }
            }
            if x == nv {
                assert(after[pos as int]@ == nv);
            }
        }
        assert(names_set(after) =~= names_set(before).insert(nv));
    }
}

/// The message for a directory that a listing finds nothing in.
pub open spec fn dir_not_found(path: Seq<char>) -> Seq<char> {
    "Directory not found: "@ + path
}

/// The names in the directory `path` (its leading and trailing slashes dropped) of a
/// tree, sorted and each once: the first segment of every path of the tree below it
/// (of every path, for the root). A directory other than the root with no name is
/// not found.
pub fn list_dir_names(tree: &StrMap<TreeEntry>, path: &str) -> (r: Result<Vec<String>, String>)
    requires
        tree.wf(),
    ensures
        ({
            let pfx = drop_trailing_slashes(drop_leading_slashes(path@));
            let names = dir_names(tree@.dom(), pfx);
            match r {
                Ok(v) => sorted_names(v@) && names_set(v@) == names && !(names.is_empty() && pfx.len() > 0),
                Err(m) => names.is_empty() && pfx.len() > 0 && m@ == dir_not_found(path@),
            }
        }),
{
    let cs = crate::text::chars_of(path);
    let a = skip_leading_slashes(&cs, 0, cs.len());
    let b = skip_trailing_slashes(&cs, a, cs.len());
    assert(cs@.subrange(0, cs@.len() as int) =~= path@);
    let pv = crate::text::string_of_range(&cs, a, b);
    let p = crate::text::chars_of(pv.as_str());
    let ghost pfx = drop_trailing_slashes(drop_leading_slashes(path@));
    assert(p@ == pfx);
    let keys = tree.keys();
    let ghost ks = tree.keys_view();
    let ghost dom = tree@.dom();
    proof {
        let es = tree.entries_view();
        assert forall|k: Seq<char>| dom.contains(k) <==> exists|j: int| 0 <= j < ks.len() && #[trigger] ks[j] == k by {
            if dom.contains(k) {
                let j = choose|j: int| 0 <= j < es.len() && #[trigger] es[j].0@ == k;
                assert(ks[j] == k);
            }
            if exists|j: int| 0 <= j < ks.len() && #[trigger] ks[j] == k {
                let j = choose|j: int| 0 <= j < ks.len() && #[trigger] ks[j] == k;
                assert(es[j].0@ == k);
            }
        }
    }
    let mut names: Vec<String> = Vec::new();
    let mut i: usize = 0;
    assert(names_set(names@) =~= Set::<Seq<char>>::empty());
    while i < keys.len()
        invariant
            i <= keys@.len(),
            keys@.len() == ks.len(),
            forall|j: int| 0 <= j < keys@.len() ==> #[trigger] keys@[j]@ == ks[j],
            p@ == pfx,
            sorted_names(names@),
            names_set(names@) == Set::new(
                |n: Seq<char>| exists|j: int| 0 <= j < i && #[trigger] child_name(ks[j], pfx) == Some(n),
            ),
        decreases keys@.len() - i,
    {
        let kc = crate::text::chars_of(keys[i].as_str());
        let ghost before = names@;
        let ghost k = ks[i as int];
        assert(kc@ == k);
        if p.len() == 0 {
            let seg = segment_from(&kc, 0);
            assert(kc@.subrange(0, kc@.len() as int) =~= kc@);
            add_name(&mut names, seg);
        } else if is_below(&kc, &p) {
            let seg = segment_from(&kc, p.len() + 1);
            add_name(&mut names, seg);
        }
        proof {
            let s_old = Set::new(|n: Seq<char>| exists|j: int| 0 <= j < i && #[trigger] child_name(ks[j], pfx) == Some(n));
            let s_new = Set::new(|n: Seq<char>| exists|j: int| 0 <= j < i + 1 && #[trigger] child_name(ks[j], pfx) == Some(n));
            assert forall|n: Seq<char>| #[trigger] s_new.contains(n) <==> (s_old.contains(n) || child_name(k, pfx) == Some(n)) by {
                if s_new.contains(n) {
                    let j = choose|j: int| 0 <= j < i + 1 && #[trigger] child_name(ks[j], pfx) == Some(n);
                    if j < i {
                        assert(s_old.contains(n));
                    }
                }
                if child_name(k, pfx) == Some(n) {
                    assert(child_name(ks[i as int], pfx) == Some(n));
                }
            }
            assert(names_set(names@) =~= s_new);
        }
        i = i + 1;
    }
    let ghost found = Set::new(|n: Seq<char>| exists|j: int| 0 <= j < ks.len() && #[trigger] child_name(ks[j], pfx) == Some(n));
    proof {
        assert forall|n: Seq<char>| #[trigger] found.contains(n) <==> dir_names(dom, pfx).contains(n) by {
            if found.contains(n) {
                let j = choose|j: int| 0 <= j < ks.len() && #[trigger] child_name(ks[j], pfx) == Some(n);
                assert(dom.contains(ks[j]));
            }
            if dir_names(dom, pfx).contains(n) {
                let k = choose|k: Seq<char>| #[trigger] dom.contains(k) && child_name(k, pfx) == Some(n);
                let j = choose|j: int| 0 <= j < ks.len() && #[trigger] ks[j] == k;
                assert(child_name(ks[j], pfx) == Some(n));
            }
        }
        assert(names_set(names@) =~= dir_names(dom, pfx));
    }
    if names.len() == 0 && p.len() > 0 {
        assert(names_set(names@) =~= Set::<Seq<char>>::empty());
        return Err(concat2("Directory not found: ", path));
    }
    if names.len() > 0 {
        assert(names_set(names@).contains(names@[0]@));
    }
    Ok(names)
}


// ─────────────────────────── commits ───────────────────────────

/// Every how many revisions a full tree is kept.
pub const SNAPSHOT_INTERVAL: u64 = 1000;

/// What a commit after revision `current` decides: the new revision, the revision
/// its delta is relative to (0 for the first), and whether a full tree is kept.
pub fn commit_plan(current: u64) -> (r: (u64, u64, bool))
    requires
        current < u64::MAX,
    ensures
        r.0 == current + 1,
        r.1 == (if current + 1 > 1 { current } else { 0 }),
        r.2 == ((current + 1) % SNAPSHOT_INTERVAL as int == 0),
{
    let nr = current + 1;
    let parent = if nr > 1 { nr - 1 } else { 0 };
    (nr, parent, nr % SNAPSHOT_INTERVAL == 0)
}

/// The changed files a commit's hooks are told: `A` and the path for an upsert, `D`
/// and the path for a deletion.
pub open spec fn hook_file(c: TreeChange) -> (Seq<char>, Seq<char>) {
    match c {
        TreeChange::Upsert { path, .. } => ("A"@, path@),
        TreeChange::Delete { path } => ("D"@, path@),
    }
}

/// The changed files a commit's hooks are told, in the order of the changes.
pub fn commit_hook_files(changes: &Vec<TreeChange>) -> (r: Vec<(String, String)>)
    ensures
        r@.len() == changes@.len(),
        forall|i: int| 0 <= i < r@.len() ==> (#[trigger] r@[i]).0@ == hook_file(changes@[i]).0 && r@[i].1@
            == hook_file(changes@[i]).1,
{
    let mut r: Vec<(String, String)> = Vec::new();
    let mut i: usize = 0;
    while i < changes.len()
        invariant
            i <= changes@.len(),
            r@.len() == i,
            forall|j: int| 0 <= j < i ==> (#[trigger] r@[j]).0@ == hook_file(changes@[j]).0 && r@[j].1@
                == hook_file(changes@[j]).1,
        decreases changes@.len() - i,
    {
        let f = match &changes[i] {
            TreeChange::Upsert { path, .. } => (to_owned("A"), to_owned(path.as_str())),
            TreeChange::Delete { path } => (to_owned("D"), to_owned(path.as_str())),
        };
        r.push(f);
        i = i + 1;
    }
    r
}


// ─────────────────────────── laws ───────────────────────────

/// A deletion removes its path and every path below it, and leaves every other path
/// with its entry.
pub proof fn law_delete_clears_subtree(t: Map<Seq<char>, EntryView>, path: String, k: Seq<char>)
    ensures
        (k == path@ || below(k, path@)) ==> !apply_change(t, TreeChange::Delete { path }).contains_key(k),
        !(k == path@ || below(k, path@)) ==> apply_change(t, TreeChange::Delete { path }).contains_key(k)
            == t.contains_key(k),
        !(k == path@ || below(k, path@)) && t.contains_key(k) ==> apply_change(t, TreeChange::Delete { path })[k]
            == t[k],
{
}

/// A file written at a path is what a lookup there finds, and other paths keep their
/// entries.
pub proof fn law_upsert_then_lookup(t: Map<Seq<char>, EntryView>, path: String, entry: TreeEntry, k: Seq<char>)
    ensures
        apply_change(t, TreeChange::Upsert { path, entry }).contains_key(path@),
        apply_change(t, TreeChange::Upsert { path, entry })[path@] == entry_view(entry),
        k != path@ ==> apply_change(t, TreeChange::Upsert { path, entry }).contains_key(k) == t.contains_key(k),
        k != path@ && t.contains_key(k) ==> apply_change(t, TreeChange::Upsert { path, entry })[k] == t[k],
{
}

/// A path added below a directory shows in the directory's listing: its first
/// segment after the directory and a slash.
pub proof fn law_listing_shows_added(t: Map<Seq<char>, EntryView>, path: String, entry: TreeEntry, pfx: Seq<char>)
    requires
        pfx.len() > 0,
        below(path@, pfx),
    ensures
        dir_names(apply_change(t, TreeChange::Upsert { path, entry }).dom(), pfx).contains(
            first_segment(path@.subrange(pfx.len() + 1int, path@.len() as int)),
        ),
{
    let t2 = apply_change(t, TreeChange::Upsert { path, entry });
    assert(t2.dom().contains(path@));
    assert(child_name(path@, pfx) == Some(first_segment(path@.subrange(pfx.len() + 1int, path@.len() as int))));
}

/// Nothing below a deleted directory shows in its listing afterwards.
pub proof fn law_listing_after_delete(t: Map<Seq<char>, EntryView>, path: String)
    requires
        path@.len() > 0,
    ensures
        dir_names(apply_change(t, TreeChange::Delete { path }).dom(), path@).is_empty(),
{
    let t2 = apply_change(t, TreeChange::Delete { path });
    assert forall|n: Seq<char>| !dir_names(t2.dom(), path@).contains(n) by {
        if dir_names(t2.dom(), path@).contains(n) {
            let k = choose|k: Seq<char>| #[trigger] t2.dom().contains(k) && child_name(k, path@) == Some(n);
            assert(below(k, path@));
        }
    }
    assert(dir_names(t2.dom(), path@) =~= Set::<Seq<char>>::empty());
}

} // verus!
