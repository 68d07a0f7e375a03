//! The decisions of the server-to-server sync endpoints: query strings, routing, the
//! checks on requested ranges and ids, and the framing of object downloads.
use vstd::prelude::*;
use vstd::utf8::encode_utf8;
use crate::text::{split, split_once, chars_of, split_ranges, string_of_range, parse_u64, parse_u64_str, str_eq, decimal, u64_to_string, concat2, to_owned, ranges_match};
use crate::strmap::StrMap;
use crate::object::{ObjectId, HexError};
use crate::codec::push_all;

verus! {

/// Current sync API protocol version.
pub const SYNC_PROTOCOL_VERSION: u32 = 1;

/// Most objects that one objects request may ask for.
pub const MAX_OBJECTS_PER_REQUEST: usize = 1000;

/// Widest revision range of one delta request.
pub const MAX_DELTA_RANGE: u64 = 500;

// ─────────────────────────── query strings ───────────────────────────

/// The value of a hexadecimal digit byte (either case); 0 for any other byte.
pub open spec fn hex_digit_value(b: u8) -> u8 {
    if 48 <= b <= 57 {
        (b - 48) as u8
    } else if 97 <= b <= 102 {
        (b - 97 + 10) as u8
    } else if 65 <= b <= 70 {
        (b - 65 + 10) as u8
    } else {
        0
    }
}

/// The value of a hexadecimal digit byte; 0 for any other byte.
pub fn hex_val(b: u8) -> (v: u8)
    ensures
        v == hex_digit_value(b),
{
    if 48 <= b && b <= 57 {
        b - 48
    } else if 97 <= b && b <= 102 {
        b - 97 + 10
    } else if 65 <= b && b <= 70 {
        b - 65 + 10
    } else {
        0
    }
}

/// Percent-decoding of bytes, each decoded byte taken as the character of that code
/// (`%XY` is the byte with hex digits X and Y, a missing digit counting as `0`; `+` is
/// a space; any other byte stands for itself).
pub open spec fn url_decoded(b: Seq<u8>) -> Seq<char>
    decreases b.len(),
{
    if b.len() == 0 {
        Seq::empty()
    } else if b[0] == 37 {
        let hi = if b.len() > 1 { b[1] } else { 48u8 };
        let lo = if b.len() > 2 { b[2] } else { 48u8 };
        let n = if b.len() >= 3 { 3int } else { b.len() as int };
        seq![((hex_digit_value(hi) * 16 + hex_digit_value(lo)) as u8) as char] + url_decoded(b.subrange(n, b.len() as int))
    } else if b[0] == 43 {
        seq![' '] + url_decoded(b.subrange(1, b.len() as int))
    } else {
        seq![b[0] as char] + url_decoded(b.subrange(1, b.len() as int))
    }
}

/// Decodes a percent-encoded query component.
pub fn urldecode(s: &str) -> (r: String)
    ensures
        r@ == url_decoded(encode_utf8(s@)),
{
    let b = s.as_bytes();
    let mut r = String::new();
    let mut i: usize = 0;
    assert(r@ =~= Seq::<char>::empty());
    assert(b@.subrange(0, b@.len() as int) =~= b@);
    while i < b.len()
        invariant
            i <= b@.len(),
            b@ == encode_utf8(s@),
            r@ + url_decoded(b@.subrange(i as int, b@.len() as int)) == url_decoded(b@),
        decreases b@.len() - i,
    {
        let ghost rest = b@.subrange(i as int, b@.len() as int);
        let c = b[i];
        let ghost before = r@;
        if c == 37 {
            let hi = if b.len() - i > 1 { b[i + 1] } else { 48u8 };
            let lo = if b.len() - i > 2 { b[i + 2] } else { 48u8 };
            let h = hex_val(hi);
            let l = hex_val(lo);
            let val: u8 = h * 16 + l;
            crate::text::string_push(&mut r, val as char);
            let n: usize = if b.len() - i >= 3 { 3 } else { b.len() - i };
            proof {
                assert(rest.subrange(n as int, rest.len() as int) =~= b@.subrange(i + n, b@.len() as int));
                assert(r@ =~= before + seq![(val as u8) as char]);
            }
            i = i + n;
        } else if c == 43 {
            crate::text::string_push(&mut r, ' ');
            proof {
                assert(rest.subrange(1, rest.len() as int) =~= b@.subrange(i + 1, b@.len() as int));
            }
            i = i + 1;
        } else {
            crate::text::string_push(&mut r, c as char);
            proof {
                assert(rest.subrange(1, rest.len() as int) =~= b@.subrange(i + 1, b@.len() as int));
            }
            i = i + 1;
        }
        proof {
            assert(r@ + url_decoded(b@.subrange(i as int, b@.len() as int)) =~= url_decoded(b@));
        }
    }
    assert(r@ + url_decoded(b@.subrange(i as int, b@.len() as int)) =~= r@);
    r
}

/// The decoded key and value of a query pair with a `=`.
pub open spec fn decoded_pair(pair: Seq<char>) -> Option<(Seq<char>, Seq<char>)> {
    match split_once(pair, seq!['=']) {
        Some((k, v)) => if pair.len() > 0 {
            Some((url_decoded(encode_utf8(k)), url_decoded(encode_utf8(v))))
        } else {
            None
        },
        None => None,
    }
}

/// The map of decoded query pairs from `pairs`, a later pair replacing an earlier one
/// with the same key.
pub open spec fn query_map(m: Map<Seq<char>, Seq<char>>, pairs: Seq<Seq<char>>) -> Map<Seq<char>, Seq<char>>
    decreases pairs.len(),
{
    if pairs.len() == 0 {
        m
    } else {
        let m1 = match decoded_pair(pairs[0]) {
            Some((k, v)) => m.insert(k, v),
            None => m,
        };
        query_map(m1, pairs.drop_first())
    }
}

/// The decoded values, in order, of the pairs in `pairs` whose decoded key is `key`.
pub open spec fn query_values(pairs: Seq<Seq<char>>, key: Seq<char>) -> Seq<Seq<char>>
    decreases pairs.len(),
{
    if pairs.len() == 0 {
        Seq::empty()
    } else {
        let rest = query_values(pairs.drop_first(), key);
        match decoded_pair(pairs[0]) {
            Some((k, v)) => if k == key { seq![v] + rest } else { rest },
            None => rest,
        }
    }
}

/// The text values of a string map.
pub open spec fn text_values(m: Map<Seq<char>, String>) -> Map<Seq<char>, Seq<char>> {
    m.map_values(|v: String| v@)
}

/// The decoded key and value of the pair `v[from..to]`, where it is not empty and has
/// a `=`.
fn pair_at(v: &Vec<char>, from: usize, to: usize) -> (r: Option<(String, String)>)
    requires
        from <= to <= v@.len(),
    ensures
        match decoded_pair(v@.subrange(from as int, to as int)) {
            Some((k, x)) => r matches Some((a, b)) && a@ == k && b@ == x,
            None => r is None,
        },
{
    if from == to {
        return None;
    }
    let mut i = from;
    while i < to && v[i] != '='
        invariant
            from <= i <= to <= v@.len(),
            forall|j: int| from <= j < i ==> v@[j] != '=',
        decreases to - i,
    {
        i = i + 1;
    }
    let ghost s = v@.subrange(from as int, to as int);
    if i == to {
        proof {
            assert forall|m: int| 0 <= m implies !crate::text::occurs_at(s, seq!['='], m) by {
                if m + 1 <= s.len() {
                    assert(s.subrange(m, m + 1)[0] == v@[from + m]);
                }
            }
            crate::text::lemma_find_none(s, seq!['='], 0);
        }
        return None;
    }
    proof {
        let k = i - from;
        assert(crate::text::occurs_at(s, seq!['='], k)) by {
            assert(s.subrange(k, k + 1) =~= seq!['=']);
        }
        assert forall|m: int| 0 <= m < k implies !crate::text::occurs_at(s, seq!['='], m) by {
            assert(s.subrange(m, m + 1)[0] == v@[from + m]);
        }
        crate::text::lemma_find_first(s, seq!['='], k);
        assert(s.subrange(0, k) =~= v@.subrange(from as int, i as int));
        assert(s.subrange(k + 1, s.len() as int) =~= v@.subrange(i + 1, to as int));
    }
    let k = string_of_range(v, from, i);
    let x = string_of_range(v, i + 1, to);
    Some((urldecode(k.as_str()), urldecode(x.as_str())))
}

/// Parses a query string into a map; a later pair replaces an earlier one with the
/// same key.
pub fn parse_query(query: &str) -> (m: StrMap<String>)
    ensures
        m.wf(),
        text_values(m@) == query_map(Map::empty(), split(query@, '&')),
{
    let v = chars_of(query);
    assert(v@.subrange(0, v@.len() as int) =~= v@);
    let pairs = split_ranges(&v, 0, v.len(), '&');
    let ghost ps = split(query@, '&');
    let mut m: StrMap<String> = StrMap::new();
    assert(text_values(m@) =~= Map::<Seq<char>, Seq<char>>::empty());
    let mut i: usize = 0;
    assert(ps.subrange(0, ps.len() as int) =~= ps);
    while i < pairs.len()
        invariant
            i <= pairs@.len(),
            m.wf(),
            v@ == query@,
            ps == split(query@, '&'),
            ranges_match(v@, pairs@, ps),
            query_map(text_values(m@), ps.subrange(i as int, ps.len() as int)) == query_map(Map::empty(), ps),
        decreases pairs@.len() - i,
    {
        let (f, t) = pairs[i];
        assert(v@.subrange(f as int, t as int) == ps[i as int]);
        let ghost before = m@;
        match pair_at(&v, f, t) {
            Some((k, x)) => {
                m.insert(k, x);
                proof {
                    assert(text_values(m@) =~= text_values(before).insert(k@, x@));
                }
            },
            None => {},
        }
        proof {
            assert(ps.subrange(i as int, ps.len() as int).drop_first() =~= ps.subrange(i + 1, ps.len() as int));
        }
        i = i + 1;
    }
    assert(ps.subrange(i as int, ps.len() as int) =~= Seq::<Seq<char>>::empty());
    m
}

/// The decoded values of every pair of the query whose decoded key is `key`, in order.
pub fn parse_query_multi(query: &str, key: &str) -> (r: Vec<String>)
    ensures
        r@.map_values(|s: String| s@) == query_values(split(query@, '&'), key@),
{
    let v = chars_of(query);
    assert(v@.subrange(0, v@.len() as int) =~= v@);
    let pairs = split_ranges(&v, 0, v.len(), '&');
    let ghost ps = split(query@, '&');
    let mut r: Vec<String> = Vec::new();
    let mut i: usize = 0;
    assert(ps.subrange(0, ps.len() as int) =~= ps);
    while i < pairs.len()
        invariant
            i <= pairs@.len(),
            v@ == query@,
            ps == split(query@, '&'),
            ranges_match(v@, pairs@, ps),
            r@.map_values(|s: String| s@) + query_values(ps.subrange(i as int, ps.len() as int), key@)
                == query_values(ps, key@),
        decreases pairs@.len() - i,
    {
        let (f, t) = pairs[i];
        assert(v@.subrange(f as int, t as int) == ps[i as int]);
        let ghost before = r@;
        proof {
            assert(ps.subrange(i as int, ps.len() as int).drop_first() =~= ps.subrange(i + 1, ps.len() as int));
        }
        match pair_at(&v, f, t) {
            Some((k, x)) => {
                if str_eq(k.as_str(), key) {
                    r.push(x);
                    proof {
                        assert(r@.map_values(|s: String| s@) =~= before.map_values(|s: String| s@).push(x@));
                        assert(r@.map_values(|s: String| s@) + query_values(ps.subrange(i + 1, ps.len() as int), key@)
                            =~= before.map_values(|s: String| s@) + query_values(ps.subrange(i as int, ps.len() as int), key@));
                    }
                }
            },
            None => {},
        }
        i = i + 1;
    }
    assert(ps.subrange(i as int, ps.len() as int) =~= Seq::<Seq<char>>::empty());
    assert(r@.map_values(|s: String| s@) + Seq::<Seq<char>>::empty() =~= r@.map_values(|s: String| s@));
    r
}

// ─────────────────────────── routing ───────────────────────────

/// The sync endpoints.
#[derive(Debug, Clone, Copy, PartialEq, Eq, Structural)]
pub enum SyncEndpoint {
    Info,
    Revs,
    Objects,
    Delta,
    GetConfig,
    SetConfig,
    Unknown,
}

/// The endpoint of a method and a path below `/sync`.
pub open spec fn endpoint_of(method: Seq<char>, path: Seq<char>) -> SyncEndpoint {
    if method == "GET"@ && path == "/info"@ {
        SyncEndpoint::Info
    } else if method == "GET"@ && path == "/revs"@ {
        SyncEndpoint::Revs
    } else if method == "GET"@ && path == "/objects"@ {
        SyncEndpoint::Objects
    } else if method == "GET"@ && path == "/delta"@ {
        SyncEndpoint::Delta
    } else if method == "GET"@ && path == "/config"@ {
        SyncEndpoint::GetConfig
    } else if method == "POST"@ && path == "/config"@ {
        SyncEndpoint::SetConfig
    } else {
        SyncEndpoint::Unknown
    }
}

/// Routes a sync request by method and path.
pub fn route_sync(method: &str, path: &str) -> (e: SyncEndpoint)
    ensures
        e == endpoint_of(method@, path@),
{
    let get = str_eq(method, "GET");
    if get && str_eq(path, "/info") {
        SyncEndpoint::Info
    } else if get && str_eq(path, "/revs") {
        SyncEndpoint::Revs
    } else if get && str_eq(path, "/objects") {
        SyncEndpoint::Objects
    } else if get && str_eq(path, "/delta") {
        SyncEndpoint::Delta
    } else if get && str_eq(path, "/config") {
        SyncEndpoint::GetConfig
    } else if str_eq(method, "POST") && str_eq(path, "/config") {
        SyncEndpoint::SetConfig
    } else {
        SyncEndpoint::Unknown
    }
}

/// The message for an unknown endpoint.
pub fn unknown_endpoint_message(method: &str, path: &str) -> (s: String)
    ensures
        s@ == "Unknown sync endpoint: "@ + method@ + " /sync"@ + path@,
{
    let a = concat2("Unknown sync endpoint: ", method);
    let b = concat2(a.as_str(), " /sync");
    concat2(b.as_str(), path)
}

// ─────────────────────────── requests ───────────────────────────

/// A number parameter of the query, where present and a `u64`.
pub open spec fn num_param(m: Map<Seq<char>, Seq<char>>, key: Seq<char>) -> Option<u64> {
    if m.contains_key(key) {
        parse_u64(m[key])
    } else {
        None
    }
}

/// A number parameter of a parsed query.
fn get_num(params: &StrMap<String>, key: &str) -> (r: Option<u64>)
    requires
        params.wf(),
    ensures
        r == num_param(text_values(params@), key@),
{
    match params.get(key) {
        Some(v) => parse_u64_str(v.as_str()),
        None => None,
    }
}

/// The range of a revisions request: `from` defaults to 1 and `to` to `head`; a
/// reversed range is refused.
pub fn revs_range(params: &StrMap<String>, head: u64) -> (r: Result<(u64, u64), String>)
    requires
        params.wf(),
    ensures
        ({
            let from = match num_param(text_values(params@), "from"@) { Some(x) => x, None => 1 };
            let to = match num_param(text_values(params@), "to"@) { Some(x) => x, None => head };
            &&& from <= to ==> r == Ok::<(u64, u64), String>((from, to))
            &&& from > to ==> (r matches Err(e) && e@ == "from must be <= to"@)
        }),
{
    let from = match get_num(params, "from") {
        Some(x) => x,
        None => 1,
    };
    let to = match get_num(params, "to") {
        Some(x) => x,
        None => head,
    };
    if from > to {
        return Err(to_owned("from must be <= to"));
    }
    Ok((from, to))
}

/// The range of a delta request: `from` defaults to 1 and `to` to `from`; a reversed
/// range, or one of more than [`MAX_DELTA_RANGE`] revisions, is refused.
pub fn delta_range(params: &StrMap<String>) -> (r: Result<(u64, u64), String>)
    requires
        params.wf(),
        ({
            let from = match num_param(text_values(params@), "from"@) { Some(x) => x, None => 1 };
            let to = match num_param(text_values(params@), "to"@) { Some(x) => x, None => from };
            from <= to ==> to - from < u64::MAX
        }),
    ensures
        ({
            let from = match num_param(text_values(params@), "from"@) { Some(x) => x, None => 1 };
            let to = match num_param(text_values(params@), "to"@) { Some(x) => x, None => from };
            &&& from > to ==> (r matches Err(e) && e@ == "from must be <= to"@)
            &&& from <= to && to - from + 1 > MAX_DELTA_RANGE ==> (r matches Err(e) && e@ == "Range too large ("@
                + decimal((to - from + 1) as nat) + " revisions, max 500)"@)
            &&& from <= to && to - from + 1 <= MAX_DELTA_RANGE ==> r == Ok::<(u64, u64), String>((from, to))
        }),
{
    let from = match get_num(params, "from") {
        Some(x) => x,
        None => 1,
    };
    let to = match get_num(params, "to") {
        Some(x) => x,
        None => from,
    };
    if from > to {
        return Err(to_owned("from must be <= to"));
    }
    if to - from >= MAX_DELTA_RANGE {
        let n = u64_to_string(to - from + 1);
        let a = concat2("Range too large (", n.as_str());
        return Err(concat2(a.as_str(), " revisions, max 500)"));
    }
    Ok((from, to))
}

/// The ids of an objects request: at least one, at most [`MAX_OBJECTS_PER_REQUEST`],
/// each 64 hex digits; otherwise the message of the first problem.
pub fn object_ids_request(ids: &Vec<String>) -> (r: Result<Vec<ObjectId>, String>)
    ensures
        ids@.len() == 0 ==> (r matches Err(e) && e@ == "No object ids specified (use ?id=HEX&id=HEX)"@),
        ids@.len() > MAX_OBJECTS_PER_REQUEST ==> (r matches Err(e) && e@ == "Too many objects requested ("@
            + decimal(ids@.len()) + ", max 1000)"@),
        r matches Ok(v) ==> 0 < ids@.len() <= MAX_OBJECTS_PER_REQUEST && v@.len() == ids@.len()
            && forall|i: int| 0 <= i < v@.len() ==> (#[trigger] v@[i])@ == crate::object::hex_bytes(ids@[i]@),
        (0 < ids@.len() <= MAX_OBJECTS_PER_REQUEST && forall|i: int| 0 <= i < ids@.len()
            ==> crate::text::ascii_only(#[trigger] ids@[i]@) && ids@[i]@.len() == 64 && crate::object::all_hex(ids@[i]@))
            ==> r is Ok,
{
    if ids.len() == 0 {
        return Err(to_owned("No object ids specified (use ?id=HEX&id=HEX)"));
    }
    if ids.len() > MAX_OBJECTS_PER_REQUEST {
        let n = u64_to_string(ids.len() as u64);
        let a = concat2("Too many objects requested (", n.as_str());
        return Err(concat2(a.as_str(), ", max 1000)"));
    }
    let mut out: Vec<ObjectId> = Vec::new();
    let mut i: usize = 0;
    while i < ids.len()
        invariant
            i <= ids@.len(),
            0 < ids@.len() <= MAX_OBJECTS_PER_REQUEST,
            out@.len() == i,
            forall|j: int| 0 <= j < i ==> (#[trigger] out@[j])@ == crate::object::hex_bytes(ids@[j]@),
        decreases ids@.len() - i,
    {
        match ObjectId::from_hex(ids[i].as_str()) {
            Ok(oid) => {
                out.push(oid);
            },
            Err(_) => {
                let msg = concat2("Invalid object id: ", ids[i].as_str());
                return Err(msg);
            },
        }
        i = i + 1;
    }
    Ok(out)
}

/// The bytes of a `u32`, most significant first.
pub open spec fn be32(x: u32) -> Seq<u8> {
    seq![((x / 16777216) % 256) as u8, ((x / 65536) % 256) as u8, ((x / 256) % 256) as u8, (x % 256) as u8]
}

/// Appends one object of a download: its id, then its length as 4 bytes most
/// significant first and its bytes; an object that was not found gets the length
/// `0xFFFFFFFF` and no bytes.
pub fn push_object_record(buf: &mut Vec<u8>, id: &ObjectId, data: Option<&Vec<u8>>)
    ensures
        final(buf)@ == old(buf)@ + id@ + match data {
            Some(d) => be32(d@.len() as u32) + d@,
            None => be32(0xFFFF_FFFF),
        },
{
    push_all(buf, vstd::array::array_as_slice(&id.0));
    match data {
        Some(d) => {
            let len = d.len() as u32;
            buf.push(((len / 16777216) % 256) as u8);
            buf.push(((len / 65536) % 256) as u8);
            buf.push(((len / 256) % 256) as u8);
            buf.push((len % 256) as u8);
            push_all(buf, d.as_slice());
        },
        None => {
            buf.push(255u8);
            buf.push(255u8);
            buf.push(255u8);
            buf.push(255u8);
        },
    }
    assert(buf@ =~= old(buf)@ + id@ + match data {
        Some(d) => be32(d@.len() as u32) + d@,
        None => be32(0xFFFF_FFFF),
    });
}

} // verus!
