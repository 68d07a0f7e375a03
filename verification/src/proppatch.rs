//! PROPPATCH requests: the property changes that a WebDAV `propertyupdate` body asks
//! for, and the multistatus answer.
use vstd::prelude::*;
use crate::text::{find, trim, split, chars_of, find_sub, string_of_range, trimmed_string, to_owned};

verus! {

/// A property change.
#[derive(Debug, Clone, PartialEq)]
pub enum PropertyModification {
    /// Set a property to a value.
    SetValue { name: String, value: String, xmlns: Option<String> },
    /// Remove a property.
    Remove { name: String, xmlns: Option<String> },
}

/// A PROPPATCH request.
#[derive(Debug, Clone)]
pub struct PropPatchRequest {
    /// Resource to modify properties on.
    pub href: String,
    /// Property modifications to apply.
    pub modifications: Vec<PropertyModification>,
}

/// A property change as plain values: whether it sets, the name, and the value.
pub open spec fn modification_view(m: PropertyModification) -> (bool, Seq<char>, Seq<char>) {
    match m {
        PropertyModification::SetValue { name, value, .. } => (true, name@, value@),
        PropertyModification::Remove { name, .. } => (false, name@, Seq::empty()),
    }
}

/// The change names no namespace.
pub open spec fn no_namespace(m: PropertyModification) -> bool {
    match m {
        PropertyModification::SetValue { xmlns, .. } => xmlns is None,
        PropertyModification::Remove { xmlns, .. } => xmlns is None,
    }
}

// ─────────────────────────── blocks ───────────────────────────

/// `<tag>` and `</tag>`.
pub open spec fn open_tag(tag: Seq<char>) -> Seq<char> {
    seq!['<'] + tag + seq!['>']
}

/// `</tag>`.
pub open spec fn close_tag(tag: Seq<char>) -> Seq<char> {
    seq!['<', '/'] + tag + seq!['>']
}

/// The blocks `<tag>...</tag>` of `x` from `pos` on, each from its opening tag to the
/// first closing tag after it; the search goes on after each block and stops at an
/// opening tag without a closing one.
pub open spec fn blocks_from(x: Seq<char>, tag: Seq<char>, pos: nat) -> Seq<Seq<char>>
    decreases x.len() - pos,
{
    if pos > x.len() {
        Seq::empty()
    } else {
        let rest = x.subrange(pos as int, x.len() as int);
        match find(rest, open_tag(tag)) {
            None => Seq::empty(),
            Some(s) => {
                let start = pos + s;
                match find(x.subrange(start, x.len() as int), close_tag(tag)) {
                    None => Seq::empty(),
                    Some(e) => {
                        let end = start + e + close_tag(tag).len();
                        if end <= pos || end > x.len() {
                            Seq::empty()
                        } else {
                            seq![x.subrange(start, end)] + blocks_from(x, tag, end as nat)
                        }
                    },
                }
            },
        }
    }
}

/// The blocks `<tag>...</tag>` of `x`.
pub open spec fn xml_blocks(x: Seq<char>, tag: Seq<char>) -> Seq<Seq<char>> {
    blocks_from(x, tag, 0)
}

/// Every block of `<tag>...</tag>` in `xml`, in order.
pub fn find_xml_blocks(xml: &str, tag: &str) -> (r: Vec<String>)
    ensures
        r@.map_values(|s: String| s@) == xml_blocks(xml@, tag@),
{
    let x = chars_of(xml);
    let t = chars_of(tag);
    let mut ot: Vec<char> = Vec::new();
    ot.push('<');
    let mut i: usize = 0;
    while i < t.len()
        invariant
            i <= t@.len(),
            ot@ == seq!['<'] + t@.subrange(0, i as int),
        decreases t@.len() - i,
    {
        ot.push(t[i]);
        i = i + 1;
        assert(ot@ =~= seq!['<'] + t@.subrange(0, i as int));
    }
    let mut ct: Vec<char> = Vec::new();
    ct.push('<');
    ct.push('/');
    let mut j: usize = 1;
    while j < ot.len()
        invariant
            1 <= j <= ot@.len(),
            ot@ == seq!['<'] + t@,
            ct@ == seq!['<', '/'] + ot@.subrange(1, j as int),
        decreases ot@.len() - j,
    {
        ct.push(ot[j]);
        j = j + 1;
        assert(ct@ =~= seq!['<', '/'] + ot@.subrange(1, j as int));
    }
    ot.push('>');
    ct.push('>');
    proof {
        assert(t@.subrange(0, t@.len() as int) =~= t@);
        assert(ot@ =~= open_tag(tag@));
        assert(ot@.subrange(1, ot@.len() - 1) =~= t@);
        assert(ct@ =~= close_tag(tag@));
    }
    let mut blocks: Vec<String> = Vec::new();
    let mut pos: usize = 0;
    loop
        invariant
            pos <= x@.len(),
            x@ == xml@,
            ot@ == open_tag(tag@),
            ct@ == close_tag(tag@),
            blocks@.map_values(|s: String| s@) + blocks_from(x@, tag@, pos as nat) == xml_blocks(xml@, tag@),
        decreases x@.len() - pos,
    {
        let ghost before = blocks@;
        match find_sub(&x, &ot, pos, x.len()) {
            None => {
                assert(blocks_from(x@, tag@, pos as nat) == Seq::<Seq<char>>::empty());
                assert(blocks@.map_values(|s: String| s@) + Seq::<Seq<char>>::empty() =~= blocks@.map_values(|s: String| s@));
                return blocks;
            },
            Some(start) => {
                match find_sub(&x, &ct, start, x.len()) {
                    None => {
                        assert(blocks_from(x@, tag@, pos as nat) == Seq::<Seq<char>>::empty());
                        assert(blocks@.map_values(|s: String| s@) + Seq::<Seq<char>>::empty() =~= blocks@.map_values(|s: String| s@));
                        return blocks;
                    },
                    Some(e) => {
                        let end = e + ct.len();
                        let b = string_of_range(&x, start, end);
                        blocks.push(b);
                        proof {
                            assert(blocks_from(x@, tag@, pos as nat) == seq![x@.subrange(start as int, end as int)]
                                + blocks_from(x@, tag@, end as nat));
                            assert(blocks@.map_values(|s: String| s@) =~= before.map_values(|s: String| s@).push(
                                x@.subrange(start as int, end as int),
                            ));
                            assert(blocks@.map_values(|s: String| s@) + blocks_from(x@, tag@, end as nat)
                                =~= before.map_values(|s: String| s@) + blocks_from(x@, tag@, pos as nat));
                        }
                        pos = end;
                    },
                }
            },
        }
    }
}

// ─────────────────────────── properties ───────────────────────────

/// The last piece of `s` after its last `:`, or all of it.
pub open spec fn local_name(s: Seq<char>) -> Seq<char> {
    split(s, ':').last()
}

/// The property in a block: the first element inside `<D:prop>`, its name without
/// namespace prefix, and the trimmed text up to its closing tag (empty where there
/// is none). `None` where the block has no `<D:prop>`, no `</D:prop>`, no element, or
/// where the content would start after `</D:prop>`.
pub open spec fn prop_element(x: Seq<char>) -> Option<(Seq<char>, Seq<char>)> {
    match find(x, "<D:prop>"@) {
        None => None,
        Some(a) => match find(x, "</D:prop>"@) {
            None => None,
            Some(e) => if a + 8 > e {
                None
            } else {
                let content = x.subrange(a + 8, e);
                match find(content, seq!['<']) {
                    None => None,
                    Some(o) => {
                        let open = o + 1;
                        match find(content.subrange(open, content.len() as int), seq!['>']) {
                            None => None,
                            Some(k) => {
                                let close = open + k;
                                let full = content.subrange(open, close);
                                let vs = close + 1;
                                let closing = seq!['<', '/'] + full + seq!['>'];
                                let value = match find(content.subrange(vs, content.len() as int), closing) {
                                    Some(m) => trim(content.subrange(vs, vs + m)),
                                    None => Seq::empty(),
                                };
                                Some((local_name(full), value))
                            },
                        }
                    },
                }
            },
        },
    }
}

/// The last piece of `v[from..to]` after its last `:`.
fn local_name_of(v: &Vec<char>, from: usize, to: usize) -> (s: String)
    requires
        from <= to <= v@.len(),
    ensures
        s@ == local_name(v@.subrange(from as int, to as int)),
{
    let ranges = crate::text::split_ranges(v, from, to, ':');
    proof {
        crate::text::lemma_split_nonempty(v@.subrange(from as int, to as int), ':');
    }
    let (f, t) = ranges[ranges.len() - 1];
    string_of_range(v, f, t)
}

/// Reads the property of a `<D:set>` or `<D:remove>` block.
pub fn parse_property_element(xml: &str) -> (r: Option<(String, String)>)
    ensures
        match prop_element(xml@) {
            Some((n, v)) => r matches Some((a, b)) && a@ == n && b@ == v,
            None => r is None,
        },
{
    let x = chars_of(xml);
    let po = chars_of("<D:prop>");
    let pc = chars_of("</D:prop>");
    assert(x@.subrange(0, x@.len() as int) =~= x@);
    let a = match find_sub(&x, &po, 0, x.len()) {
        Some(a) => a,
        None => {
            return None;
        },
    };
    let e = match find_sub(&x, &pc, 0, x.len()) {
        Some(e) => e,
        None => {
            return None;
        },
    };
    if e < 8 || a > e - 8 {
        return None;
    }
    let s = a + 8;
    let ghost content = x@.subrange(s as int, e as int);
    let mut lt: Vec<char> = Vec::new();
    lt.push('<');
    assert(lt@ =~= seq!['<']);
    let o = match find_sub(&x, &lt, s, e) {
        Some(o) => o,
        None => {
            return None;
        },
    };
    let mut gt: Vec<char> = Vec::new();
    gt.push('>');
    assert(gt@ =~= seq!['>']);
    proof {
        assert(content.subrange(o - s + 1, content.len() as int) =~= x@.subrange(o + 1, e as int));
    }
    let c = match find_sub(&x, &gt, o + 1, e) {
        Some(c) => c,
        None => {
            return None;
        },
    };
    let full = crate::text::sub(&x, o + 1, c);
    assert(full@ =~= content.subrange(o - s + 1, c - s));
    let name = local_name_of(&x, o + 1, c);
    let mut closing: Vec<char> = Vec::new();
    closing.push('<');
    closing.push('/');
    let mut i: usize = 0;
    while i < full.len()
        invariant
            i <= full@.len(),
            closing@ == seq!['<', '/'] + full@.subrange(0, i as int),
        decreases full@.len() - i,
    {
        closing.push(full[i]);
        i = i + 1;
        assert(closing@ =~= seq!['<', '/'] + full@.subrange(0, i as int));
    }
    closing.push('>');
    assert(full@.subrange(0, full@.len() as int) =~= full@);
    assert(closing@ =~= seq!['<', '/'] + full@ + seq!['>']);
    let vs = c + 1;
    proof {
        assert(content.subrange(c - s + 1, content.len() as int) =~= x@.subrange(vs as int, e as int));
    }
    let value = match find_sub(&x, &closing, vs, e) {
        Some(m) => {
            proof {
                assert(content.subrange(c - s + 1, c - s + 1 + (m - vs)) =~= x@.subrange(vs as int, m as int));
            }
            trimmed_string(&x, vs, m)
        },
        None => {
            let r = String::new();
            assert(r@ =~= Seq::<char>::empty());
            r
        },
    };
    Some((name, value))
}

/// The property changes of a request body: every `<D:set>` block, then every
/// `<D:remove>` block, in order, skipping blocks without a property.
pub open spec fn modifications_of(x: Seq<char>) -> Seq<(bool, Seq<char>, Seq<char>)> {
    props_of_blocks(xml_blocks(x, "D:set"@), true) + props_of_blocks(xml_blocks(x, "D:remove"@), false)
}

/// The changes of the blocks `bs`: sets where `set`, removals otherwise.
pub open spec fn props_of_blocks(bs: Seq<Seq<char>>, set: bool) -> Seq<(bool, Seq<char>, Seq<char>)>
    decreases bs.len(),
{
    if bs.len() == 0 {
        Seq::empty()
    } else {
        let rest = props_of_blocks(bs.drop_first(), set);
        match prop_element(bs[0]) {
            Some((n, v)) => seq![(set, n, if set { v } else { Seq::empty() })] + rest,
            None => rest,
        }
    }
}

/// The change that one block stands for on its own: a set with the block's own name
/// and value, or a removal of the name, or nothing for a block without a property.
pub open spec fn block_change(b: Seq<char>, set: bool) -> Seq<(bool, Seq<char>, Seq<char>)> {
    match prop_element(b) {
        Some((n, v)) => if set { seq![(true, n, v)] } else { seq![(false, n, Seq::empty())] },
        None => Seq::empty(),
    }
}

/// The changes of blocks one after the other are the changes of each part: what a
/// block yields does not depend on the blocks around it.
pub proof fn law_block_changes_concat(a: Seq<Seq<char>>, b: Seq<Seq<char>>, set: bool)
    ensures
        props_of_blocks(a + b, set) == props_of_blocks(a, set) + props_of_blocks(b, set),
    decreases a.len(),
{
    if a.len() == 0 {
        assert(a + b =~= b);
        assert(Seq::<(bool, Seq<char>, Seq<char>)>::empty() + props_of_blocks(b, set) =~= props_of_blocks(b, set));
    } else {
        assert((a + b).drop_first() =~= a.drop_first() + b);
        assert((a + b)[0] == a[0]);
        law_block_changes_concat(a.drop_first(), b, set);
        match prop_element(a[0]) {
            Some((n, v)) => {
                assert(props_of_blocks(a + b, set) =~= props_of_blocks(a, set) + props_of_blocks(b, set));
            },
            None => {},
        }
    }
}

/// Each block on its own yields its own change: a `<D:set>` block whose property is
/// `(n, v)` sets `n` to `v`, a `<D:remove>` block removes `n`.
pub proof fn law_single_block_change(b: Seq<char>, set: bool)
    ensures
        props_of_blocks(seq![b], set) == block_change(b, set),
{
    reveal_with_fuel(props_of_blocks, 2);
    assert(seq![b].drop_first() =~= Seq::<Seq<char>>::empty());
    assert(seq![b][0] == b);
    match prop_element(b) {
        Some((n, v)) => {
            assert(props_of_blocks(seq![b], set) =~= block_change(b, set));
        },
        None => {},
    }
}

/// The `k`-th block's change stands in the result between the changes of the blocks
/// before and after it: in particular a set block keeps the value read from it,
/// whatever the other blocks hold.
pub proof fn law_each_block_keeps_its_change(bs: Seq<Seq<char>>, k: int, set: bool)
    requires
        0 <= k < bs.len(),
    ensures
        props_of_blocks(bs, set) == props_of_blocks(bs.take(k), set) + block_change(bs[k], set) + props_of_blocks(
            bs.skip(k + 1),
            set,
        ),
{
    assert(bs =~= bs.take(k) + (seq![bs[k]] + bs.skip(k + 1)));
    law_block_changes_concat(bs.take(k), seq![bs[k]] + bs.skip(k + 1), set);
    law_block_changes_concat(seq![bs[k]], bs.skip(k + 1), set);
    law_single_block_change(bs[k], set);
    assert(props_of_blocks(bs.take(k), set) + (block_change(bs[k], set) + props_of_blocks(bs.skip(k + 1), set))
        =~= props_of_blocks(bs.take(k), set) + block_change(bs[k], set) + props_of_blocks(bs.skip(k + 1), set));
}

/// Appends the changes of the blocks `bs`.
fn push_modifications(out: &mut Vec<PropertyModification>, bs: &Vec<String>, set: bool)
    requires
        forall|k: int| 0 <= k < old(out)@.len() ==> no_namespace(#[trigger] old(out)@[k]),
    ensures
        final(out)@.map_values(|m: PropertyModification| modification_view(m)) == old(out)@.map_values(
            |m: PropertyModification| modification_view(m),
        ) + props_of_blocks(bs@.map_values(|s: String| s@), set),
        forall|k: int| 0 <= k < final(out)@.len() ==> no_namespace(#[trigger] final(out)@[k]),
{
    let ghost bv = bs@.map_values(|s: String| s@);
    let mut i: usize = 0;
    assert(bv.subrange(0, bv.len() as int) =~= bv);
    while i < bs.len()
        invariant
            i <= bs@.len(),
            bv == bs@.map_values(|s: String| s@),
            out@.map_values(|m: PropertyModification| modification_view(m)) + props_of_blocks(
                bv.subrange(i as int, bv.len() as int),
                set,
            ) == old(out)@.map_values(|m: PropertyModification| modification_view(m)) + props_of_blocks(bv, set),
            forall|k: int| 0 <= k < out@.len() ==> no_namespace(#[trigger] out@[k]),
        decreases bs@.len() - i,
    {
        let ghost before = out@;
        let ghost tail = bv.subrange(i as int, bv.len() as int);
        assert(tail[0] == bs@[i as int]@);
        assert(tail.drop_first() =~= bv.subrange(i + 1, bv.len() as int));
        match parse_property_element(bs[i].as_str()) {
            Some((name, value)) => {
                let m = if set {
                    PropertyModification::SetValue { name, value, xmlns: None }
                } else {
                    PropertyModification::Remove { name, xmlns: None }
                };
                let ghost mv = modification_view(m);
                out.push(m);
                proof {
                    assert(out@.map_values(|m: PropertyModification| modification_view(m)) =~= before.map_values(
                        |m: PropertyModification| modification_view(m),
                    ).push(mv));
                    assert(out@.map_values(|m: PropertyModification| modification_view(m)) + props_of_blocks(
                        bv.subrange(i + 1, bv.len() as int),
                        set,
                    ) =~= before.map_values(|m: PropertyModification| modification_view(m)) + props_of_blocks(tail, set));
                }
            },
            None => {},
        }
        i = i + 1;
    }
    assert(bv.subrange(i as int, bv.len() as int) =~= Seq::<Seq<char>>::empty());
    assert(out@.map_values(|m: PropertyModification| modification_view(m)) + Seq::<(bool, Seq<char>, Seq<char>)>::empty()
        =~= out@.map_values(|m: PropertyModification| modification_view(m)));
}

impl PropPatchRequest {
    /// Reads a request body; the resource is `/`. Reading never fails.
    pub fn from_xml(xml: &str) -> (r: Result<Self, String>)
        ensures
            r matches Ok(p) && p.href@ == seq!['/'] && p.modifications@.map_values(
                |m: PropertyModification| modification_view(m),
            ) == modifications_of(xml@),
            r matches Ok(p) && forall|k: int| 0 <= k < p.modifications@.len() ==> no_namespace(
                #[trigger] p.modifications@[k],
            ),
    {
        let href = to_owned("/");
        proof {
            reveal_strlit("/");
        }
        let mut modifications: Vec<PropertyModification> = Vec::new();
        assert(modifications@.map_values(|m: PropertyModification| modification_view(m)) =~= Seq::<
            (bool, Seq<char>, Seq<char>),
        >::empty());
        let sets = find_xml_blocks(xml, "D:set");
        push_modifications(&mut modifications, &sets, true);
        let removes = find_xml_blocks(xml, "D:remove");
        push_modifications(&mut modifications, &removes, false);
        Ok(PropPatchRequest { href, modifications })
    }

    /// A request is valid when it changes something.
    pub fn is_valid(&self) -> (b: bool)
        ensures
            b == (self.modifications@.len() > 0),
    {
        self.modifications.len() > 0
    }
}

// ─────────────────────────── response ───────────────────────────

/// The XML text of `c`, escaped.
pub open spec fn escape_char(c: char) -> Seq<char> {
    if c == '&' {
        "&amp;"@
    } else if c == '<' {
        "&lt;"@
    } else if c == '>' {
        "&gt;"@
    } else if c == '"' {
        "&quot;"@
    } else if c == '\'' {
        "&apos;"@
    } else {
        seq![c]
    }
}

/// `s` with `&`, `<`, `>`, `"` and `'` escaped as XML entities.
pub open spec fn escaped(s: Seq<char>) -> Seq<char>
    decreases s.len(),
{
    if s.len() == 0 {
        Seq::empty()
    } else {
        escaped(s.drop_last()) + escape_char(s.last())
    }
}

/// Escapes XML special characters.
pub fn escape_xml(s: &str) -> (r: String)
    ensures
        r@ == escaped(s@),
{
    let v = chars_of(s);
    let mut r = String::new();
    let mut i: usize = 0;
    assert(r@ =~= escaped(v@.subrange(0, 0)));
    while i < v.len()
        invariant
            i <= v@.len(),
            v@ == s@,
            r@ == escaped(v@.subrange(0, i as int)),
        decreases v@.len() - i,
    {
        let c = v[i];
        let ghost before = r@;
        if c == '&' {
            r.append("&amp;");
        } else if c == '<' {
            r.append("&lt;");
        } else if c == '>' {
            r.append("&gt;");
        } else if c == '"' {
            r.append("&quot;");
        } else if c == '\'' {
            r.append("&apos;");
        } else {
            crate::text::string_push(&mut r, c);
        }
        proof {
            assert(v@.subrange(0, i + 1).drop_last() =~= v@.subrange(0, i as int));
            assert(r@ =~= before + escape_char(c));
        }
        i = i + 1;
    }
    assert(v@.subrange(0, v@.len() as int) =~= v@);
    r
}

/// One status of a multistatus answer.
#[derive(Debug, Clone)]
pub struct PropStat {
    pub status: String,
    pub responsedescription: Option<String>,
    pub props: Vec<Property>,
}

/// A property of an answer.
#[derive(Debug, Clone)]
pub struct Property {
    pub name: String,
    pub value: Option<String>,
}

/// The answer to a PROPPATCH request.
#[derive(Debug, Clone)]
pub struct PropPatchResponse {
    pub href: String,
    pub propstats: Vec<PropStat>,
}

/// The XML of one status.
pub open spec fn propstat_xml(href: Seq<char>, status: Seq<char>, desc: Option<Seq<char>>) -> Seq<char> {
    "<D:response><D:href>"@ + href + "</D:href><D:propstat><D:status>"@ + status + "</D:status>"@ + match desc {
        Some(d) => "<D:responsedescription>"@ + escaped(d) + "</D:responsedescription>"@,
        None => Seq::empty(),
    } + "</D:propstat></D:response>"@
}

/// The XML of the statuses `ps` for `href`.
pub open spec fn propstats_xml(href: Seq<char>, ps: Seq<PropStat>) -> Seq<char>
    decreases ps.len(),
{
    if ps.len() == 0 {
        Seq::empty()
    } else {
        propstats_xml(href, ps.drop_last()) + propstat_xml(
            href,
            ps.last().status@,
            match ps.last().responsedescription {
                Some(d) => Some(d@),
                None => None,
            },
        )
    }
}

impl PropPatchResponse {
    /// A success answer: one status `HTTP/1.1 200 OK`.
    pub fn success(href: String) -> (r: Self)
        ensures
            r.href@ == href@,
            r.propstats@.len() == 1,
            r.propstats@[0].status@ == "HTTP/1.1 200 OK"@,
            r.propstats@[0].responsedescription is None,
            r.propstats@[0].props@.len() == 0,
    {
        let ps = PropStat { status: to_owned("HTTP/1.1 200 OK"), responsedescription: None, props: Vec::new() };
        let mut v: Vec<PropStat> = Vec::new();
        v.push(ps);
        PropPatchResponse { href, propstats: v }
    }

    /// An error answer: one status `HTTP/1.1 403 Forbidden` with the message.
    pub fn error(href: String, message: String) -> (r: Self)
        ensures
            r.href@ == href@,
            r.propstats@.len() == 1,
            r.propstats@[0].status@ == "HTTP/1.1 403 Forbidden"@,
            r.propstats@[0].responsedescription matches Some(d) && d@ == message@,
            r.propstats@[0].props@.len() == 0,
    {
        let ps = PropStat {
            status: to_owned("HTTP/1.1 403 Forbidden"),
            responsedescription: Some(message),
            props: Vec::new(),
        };
        let mut v: Vec<PropStat> = Vec::new();
        v.push(ps);
        PropPatchResponse { href, propstats: v }
    }

    /// The multistatus XML of the answer.
    pub fn to_xml(&self) -> (x: String)
        ensures
            x@ == "<?xml version=\"1.0\" encoding=\"utf-8\"?><D:multistatus xmlns:D=\"DAV:\">"@ + propstats_xml(
                self.href@,
                self.propstats@,
            ) + "</D:multistatus>"@,
    {
        let mut xml = to_owned("<?xml version=\"1.0\" encoding=\"utf-8\"?>");
        xml.append("<D:multistatus xmlns:D=\"DAV:\">");
        let ghost head = xml@;
        let mut i: usize = 0;
        while i < self.propstats.len()
            invariant
                i <= self.propstats@.len(),
                head == "<?xml version=\"1.0\" encoding=\"utf-8\"?>"@ + "<D:multistatus xmlns:D=\"DAV:\">"@,
                xml@ == head + propstats_xml(self.href@, self.propstats@.subrange(0, i as int)),
            decreases self.propstats@.len() - i,
        {
            let ps = &self.propstats[i];
            let ghost before = xml@;
            xml.append("<D:response><D:href>");
            xml.append(self.href.as_str());
            xml.append("</D:href><D:propstat><D:status>");
            xml.append(ps.status.as_str());
            xml.append("</D:status>");
            match &ps.responsedescription {
                Some(d) => {
                    xml.append("<D:responsedescription>");
                    let e = escape_xml(d.as_str());
                    xml.append(e.as_str());
                    xml.append("</D:responsedescription>");
                },
                None => {},
            }
            xml.append("</D:propstat></D:response>");
            proof {
                let t = self.propstats@.subrange(0, i + 1);
                assert(t.drop_last() =~= self.propstats@.subrange(0, i as int));
                assert(t.last() == self.propstats@[i as int]);
                assert(xml@ =~= before + propstat_xml(
                    self.href@,
                    ps.status@,
                    match ps.responsedescription {
                        Some(d) => Some(d@),
                        None => None,
                    },
                ));
            }
            i = i + 1;
        }
        xml.append("</D:multistatus>");
        assert(self.propstats@.subrange(0, self.propstats@.len() as int) =~= self.propstats@);
        assert(xml@ =~= "<?xml version=\"1.0\" encoding=\"utf-8\"?><D:multistatus xmlns:D=\"DAV:\">"@ + propstats_xml(
            self.href@,
            self.propstats@,
        ) + "</D:multistatus>"@) by {
            reveal_strlit("<?xml version=\"1.0\" encoding=\"utf-8\"?><D:multistatus xmlns:D=\"DAV:\">");
            reveal_strlit("<?xml version=\"1.0\" encoding=\"utf-8\"?>");
            reveal_strlit("<D:multistatus xmlns:D=\"DAV:\">");
        }
        xml
    }
}

} // verus!
