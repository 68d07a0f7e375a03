//! Decoding the svndiff bodies that clients send with PUT: the new data that the
//! windows' insert instructions take, in order. Copies from the source and from the
//! target are skipped; a body that does not start with `SVN` is taken as it is.
use vstd::prelude::*;

verus! {

/// A variable-length number read from `p` on, with `acc` read so far: seven bits per
/// byte, most significant first, while the high bit is set; bits shifted past 64 are
/// lost; the end of the data ends it. Returns the number and the position after it.
pub open spec fn varint_from(data: Seq<u8>, p: int, acc: u64) -> (u64, int)
    decreases data.len() - p,
{
    if p < 0 || p >= data.len() {
        (acc, p)
    } else {
        let b = data[p];
        let acc2 = (acc << 7u64) | ((b & 0x7f) as u64);
        if b & 0x80 == 0 {
            (acc2, p + 1)
        } else {
            varint_from(data, p + 1, acc2)
        }
    }
}

/// The variable-length number at `p`.
pub open spec fn varint(data: Seq<u8>, p: int) -> (u64, int) {
    varint_from(data, p, 0)
}

pub proof fn lemma_varint_from_adv(data: Seq<u8>, p: int, acc: u64)
    ensures
        varint_from(data, p, acc).1 >= p,
        0 <= p < data.len() ==> varint_from(data, p, acc).1 > p,
        0 <= p <= data.len() ==> varint_from(data, p, acc).1 <= data.len(),
    decreases data.len() - p,
{
    if 0 <= p < data.len() {
        let b = data[p];
        let acc2 = (acc << 7u64) | ((b & 0x7f) as u64);
        if b & 0x80 != 0 {
            lemma_varint_from_adv(data, p + 1, acc2);
        }
    }
}

pub proof fn lemma_varint_adv(data: Seq<u8>, p: int)
    ensures
        varint(data, p).1 >= p,
        0 <= p < data.len() ==> varint(data, p).1 > p,
        0 <= p <= data.len() ==> varint(data, p).1 <= data.len(),
{
    lemma_varint_from_adv(data, p, 0);
}

/// Reads the variable-length number at `pos`.
fn read_varint(data: &[u8], pos: usize) -> (r: (u64, usize))
    ensures
        r.0 == varint(data@, pos as int).0,
        r.1 as int == varint(data@, pos as int).1,
{
    let mut result: u64 = 0;
    let mut p = pos;
    while p < data.len()
        invariant
            pos <= p,
            varint_from(data@, p as int, result) == varint(data@, pos as int),
        decreases data@.len() - p,
    {
        let byte = data[p];
        result = (result << 7u64) | ((byte & 0x7f) as u64);
        p = p + 1;
        if byte & 0x80 == 0 {
            return (result, p);
        }
    }
    (result, p)
}

/// The bytes that the instructions `ins` take from the new data `nd`, from
/// instruction position `ip` on, with the new-data offset at `off` and `acc` taken
/// so far. An instruction is a byte of opcode (high two bits) and length (low six
/// bits; 0 means that a number follows with the length); copies from the source
/// (0) and the target (1) carry an offset number and take nothing here; an insert
/// (2) takes the next `length` bytes of the new data where they are there and moves
/// past them either way.
pub open spec fn insert_bytes(ins: Seq<u8>, nd: Seq<u8>, ip: int, off: int, acc: Seq<u8>) -> Seq<u8>
    decreases ins.len() - ip,
{
    if ip < 0 || ip >= ins.len() {
        acc
    } else {
        let byte = ins[ip];
        let opcode = (byte >> 6u8) & 0x03;
        let l0 = (byte & 0x3f) as u64;
        let (length, ip2) = if l0 == 0 { varint(ins, ip + 1) } else { (l0, ip + 1) };
        proof {
            lemma_varint_adv(ins, ip + 1);
        }
        if opcode == 0 || opcode == 1 {
            let ip3 = varint(ins, ip2).1;
            proof {
                lemma_varint_adv(ins, ip2);
            }
            insert_bytes(ins, nd, ip3, off, acc)
        } else if opcode == 2 {
            let end = off + length;
            insert_bytes(
                ins,
                nd,
                ip2,
                end,
                if 0 <= off && end <= nd.len() { acc + nd.subrange(off, end) } else { acc },
            )
        } else {
            insert_bytes(ins, nd, ip2, off, acc)
        }
    }
}

proof fn lemma_insert_past_end(ins: Seq<u8>, nd: Seq<u8>, ip: int, off: int, acc: Seq<u8>)
    requires
        off > nd.len(),
    ensures
        insert_bytes(ins, nd, ip, off, acc) == acc,
    decreases ins.len() - ip,
{
    if 0 <= ip < ins.len() {
        let byte = ins[ip];
        let l0 = (byte & 0x3f) as u64;
        let (length, ip2) = if l0 == 0 { varint(ins, ip + 1) } else { (l0, ip + 1) };
        lemma_varint_adv(ins, ip + 1);
        lemma_varint_adv(ins, ip2);
        lemma_insert_past_end(ins, nd, varint(ins, ip2).1, off, acc);
        lemma_insert_past_end(ins, nd, ip2, off + length, acc);
        lemma_insert_past_end(ins, nd, ip2, off, acc);
    }
}

/// Appends what the instructions `data[from..to]` take from the new data
/// `data[nfrom..nto]`.
fn push_inserts(out: &mut Vec<u8>, data: &[u8], from: usize, to: usize, nfrom: usize, nto: usize)
    requires
        from <= to <= data@.len(),
        nfrom <= nto <= data@.len(),
    ensures
        final(out)@ == insert_bytes(
            data@.subrange(from as int, to as int),
            data@.subrange(nfrom as int, nto as int),
            0,
            0,
            old(out)@,
        ),
{
    let ghost ins = data@.subrange(from as int, to as int);
    let ghost nd = data@.subrange(nfrom as int, nto as int);
    let ghost goal = insert_bytes(ins, nd, 0, 0, old(out)@);
    let ins_v = copy_slice(data, from, to);
    let ilen = ins_v.len();
    let ndlen = nto - nfrom;
    let mut ip: usize = 0;
    let mut off: usize = 0;
    while ip < ilen
        invariant
            ins_v@ == ins,
            ilen == ins.len(),
            ndlen == nd.len(),
            nfrom <= nto <= data@.len(),
            nd == data@.subrange(nfrom as int, nto as int),
            off <= ndlen,
            insert_bytes(ins, nd, ip as int, off as int, out@) == goal,
            ins == data@.subrange(from as int, to as int),
            goal == insert_bytes(data@.subrange(from as int, to as int), data@.subrange(nfrom as int, nto as int), 0, 0, old(out)@),
        decreases ilen - ip,
    {
        let byte = ins_v[ip];
        let opcode = (byte >> 6u8) & 0x03;
        let mut length: u64 = (byte & 0x3f) as u64;
        let mut ip2 = ip + 1;
        proof {
            lemma_varint_adv(ins, ip + 1);
        }
        if length == 0 {
            let (l, np) = read_varint(ins_v.as_slice(), ip2);
            length = l;
            ip2 = np;
        }
        if opcode == 0 || opcode == 1 {
            let (_, np) = read_varint(ins_v.as_slice(), ip2);
            proof {
                lemma_varint_adv(ins, ip2 as int);
            }
            ip = np;
        } else if opcode == 2 {
            if length > (ndlen - off) as u64 {
                proof {
                    assert(insert_bytes(ins, nd, ip as int, off as int, out@) == insert_bytes(
                        ins,
                        nd,
                        ip2 as int,
                        off + length,
                        out@,
                    ));
                    lemma_insert_past_end(ins, nd, ip2 as int, off + length, out@);
                }
                return;
            }
            let end = off + length as usize;
            let mut q = nfrom + off;
            let ghost before = out@;
            while q < nfrom + end
                invariant
                    nfrom + off <= q <= nfrom + end,
                    nfrom + end <= nto <= data@.len(),
                    out@ == before + data@.subrange(nfrom + off, q as int),
                decreases nfrom + end - q,
            {
                out.push(data[q]);
                assert(data@.subrange(nfrom + off, q + 1) =~= data@.subrange(nfrom + off, q as int).push(data@[q as int]));
                q = q + 1;
            }
            assert(data@.subrange(nfrom + off, nfrom + end) =~= nd.subrange(off as int, end as int));
            off = end;
            ip = ip2;
        } else {
            ip = ip2;
        }
    }
}

/// `data[from..to]` as a vector.
fn copy_slice(data: &[u8], from: usize, to: usize) -> (v: Vec<u8>)
    requires
        from <= to <= data@.len(),
    ensures
        v@ == data@.subrange(from as int, to as int),
{
    let mut v: Vec<u8> = Vec::new();
    let mut q = from;
    while q < to
        invariant
            from <= q <= to <= data@.len(),
            v@ == data@.subrange(from as int, q as int),
        decreases to - q,
    {
        v.push(data[q]);
        assert(data@.subrange(from as int, q + 1) =~= data@.subrange(from as int, q as int).push(data@[q as int]));
        q = q + 1;
    }
    v
}

/// What the windows from `pos` on add to `acc`. A window is five numbers (source
/// offset, source length, target length, instructions length, new data length),
/// its instructions and its new data; the data ending after one of the first four
/// numbers ends the decoding; a window whose new data runs past the end adds what
/// there is of its new data and ends it.
pub open spec fn windows_from(data: Seq<u8>, pos: int, acc: Seq<u8>) -> Seq<u8>
    decreases data.len() - pos,
{
    if pos < 0 || pos >= data.len() {
        acc
    } else {
        let p1 = varint(data, pos).1;
        let p2 = varint(data, p1).1;
        let p3 = varint(data, p2).1;
        let (il, p4) = varint(data, p3);
        let (nl, p5) = varint(data, p4);
        let ns = p5 + il;
        let ne = ns + nl;
        proof {
            lemma_varint_adv(data, pos);
        }
        if p1 >= data.len() || p2 >= data.len() || p3 >= data.len() || p4 >= data.len() {
            acc
        } else if ne > data.len() {
            if ns < data.len() {
                acc + data.subrange(ns, data.len() as int)
            } else {
                acc
            }
        } else {
            proof {
                lemma_varint_adv(data, p1);
                lemma_varint_adv(data, p2);
                lemma_varint_adv(data, p3);
                lemma_varint_adv(data, p4);
            }
            windows_from(data, ne, insert_bytes(data.subrange(p5, ns), data.subrange(ns, ne), 0, 0, acc))
        }
    }
}

/// The decoded content of a PUT body: the body itself where it is shorter than 4
/// bytes or does not start with `SVN`, else what the windows after the 4-byte
/// header insert.
pub open spec fn svndiff_content(data: Seq<u8>) -> Seq<u8> {
    if data.len() < 4 || data.subrange(0, 3) != seq![83u8, 86u8, 78u8] {
        data
    } else {
        windows_from(data, 4, Seq::empty())
    }
}

/// Decodes a PUT body.
pub fn decode_svndiff(data: &[u8]) -> (r: Vec<u8>)
    ensures
        r@ == svndiff_content(data@),
{
    let len = data.len();
    if len < 4 || data[0] != 83u8 || data[1] != 86u8 || data[2] != 78u8 {
        proof {
            if len >= 4 {
                assert(data@.subrange(0, 3)[0] == data@[0]);
                assert(data@.subrange(0, 3)[1] == data@[1]);
                assert(data@.subrange(0, 3)[2] == data@[2]);
            }
        }
        return copy_slice(data, 0, len);
    }
    assert(data@.subrange(0, 3) =~= seq![83u8, 86u8, 78u8]);
    let mut pos: usize = 4;
    let mut result: Vec<u8> = Vec::new();
    let ghost goal = windows_from(data@, 4, Seq::empty());
    while pos < len
        invariant
            len == data@.len(),
            4 <= pos,
            windows_from(data@, pos as int, result@) == goal,
            goal == svndiff_content(data@),
        decreases len - pos,
    {
        let ghost d = data@;
        proof {
            lemma_varint_adv(d, pos as int);
        }
        let (_, p1) = read_varint(data, pos);
        if p1 >= len {
            assert(windows_from(d, pos as int, result@) == result@);
            return result;
        }
        proof {
            lemma_varint_adv(d, p1 as int);
        }
        let (_, p2) = read_varint(data, p1);
        if p2 >= len {
            assert(windows_from(d, pos as int, result@) == result@);
            return result;
        }
        proof {
            lemma_varint_adv(d, p2 as int);
        }
        let (_, p3) = read_varint(data, p2);
        if p3 >= len {
            assert(windows_from(d, pos as int, result@) == result@);
            return result;
        }
        proof {
            lemma_varint_adv(d, p3 as int);
        }
        let (il, p4) = read_varint(data, p3);
        if p4 >= len {
            return result;
        }
        proof {
            lemma_varint_adv(d, p4 as int);
        }
        let (nl, p5) = read_varint(data, p4);
        if il > (len - p5) as u64 || nl > (len - p5) as u64 - il {
            if il < (len - p5) as u64 {
                let ns = p5 + il as usize;
                let tail = copy_slice(data, ns, len);
                let mut out = result;
                crate::codec::push_all(&mut out, tail.as_slice());
                return out;
            }
            return result;
        }
        let ns = p5 + il as usize;
        let ne = ns + nl as usize;
        push_inserts(&mut result, data, p5, ns, ns, ne);
        pos = ne;
    }
    result
}


// ─────────────────────────── laws ───────────────────────────

/// The instruction bytes of insert instructions of the given lengths, each length
/// (1 to 63) in the instruction byte itself.
pub open spec fn insert_program(lens: Seq<u8>) -> Seq<u8> {
    lens.map_values(|l: u8| (0x80u8 | l))
}

/// The sum of the lengths.
pub open spec fn total_len(lens: Seq<u8>) -> nat
    decreases lens.len(),
{
    if lens.len() == 0 {
        0
    } else {
        total_len(lens.drop_last()) + lens.last() as nat
    }
}

proof fn lemma_total_take_step(lens: Seq<u8>, k: int)
    requires
        0 <= k < lens.len(),
    ensures
        total_len(lens.take(k + 1)) == total_len(lens.take(k)) + lens[k] as nat,
{
    assert(lens.take(k + 1).drop_last() =~= lens.take(k));
    assert(lens.take(k + 1).last() == lens[k]);
}

proof fn lemma_total_take_le(lens: Seq<u8>, k: int)
    requires
        0 <= k <= lens.len(),
    ensures
        total_len(lens.take(k)) <= total_len(lens),
    decreases lens.len() - k,
{
    if k == lens.len() {
        assert(lens.take(k) =~= lens);
    } else {
        lemma_total_take_step(lens, k);
        lemma_total_take_le(lens, k + 1);
    }
}

proof fn lemma_insert_byte(l: u8)
    requires
        1 <= l < 64,
    ensures
        ((0x80u8 | l) >> 6u8) & 0x03 == 2,
        ((0x80u8 | l) & 0x3f) == l,
{
    assert(((0x80u8 | l) >> 6u8) & 0x03 == 2) by (bit_vector)
        requires
            1 <= l < 64,
    ;
    assert(((0x80u8 | l) & 0x3f) == l) by (bit_vector)
        requires
            1 <= l < 64,
    ;
}

proof fn lemma_inserts_from(lens: Seq<u8>, nd: Seq<u8>, k: int, acc: Seq<u8>)
    requires
        0 <= k <= lens.len(),
        forall|i: int| 0 <= i < lens.len() ==> 1 <= #[trigger] lens[i] < 64,
        total_len(lens) <= nd.len(),
    ensures
        insert_bytes(insert_program(lens), nd, k, total_len(lens.take(k)) as int, acc) == acc + nd.subrange(
            total_len(lens.take(k)) as int,
            total_len(lens) as int,
        ),
    decreases lens.len() - k,
{
    let prog = insert_program(lens);
    let off = total_len(lens.take(k)) as int;
    if k == lens.len() {
        assert(lens.take(k) =~= lens);
        assert(acc + nd.subrange(off, off) =~= acc);
    } else {
        let l = lens[k];
        lemma_insert_byte(l);
        assert(prog[k] == (0x80u8 | l));
        lemma_total_take_step(lens, k);
        lemma_total_take_le(lens, k + 1);
        let end = off + l as int;
        lemma_inserts_from(lens, nd, k + 1, acc + nd.subrange(off, end));
        assert(acc + nd.subrange(off, end) + nd.subrange(end, total_len(lens) as int) =~= acc + nd.subrange(
            off,
            total_len(lens) as int,
        ));
    }
}

/// Successive insert instructions take consecutive, non-overlapping pieces of the
/// window's new data: inserts of `l1, l2, ...` bytes, together at most the new data's
/// length, take exactly its first `l1 + l2 + ...` bytes.
pub proof fn law_inserts_take_new_data_in_order(lens: Seq<u8>, nd: Seq<u8>, acc: Seq<u8>)
    requires
        forall|i: int| 0 <= i < lens.len() ==> 1 <= #[trigger] lens[i] < 64,
        total_len(lens) <= nd.len(),
    ensures
        insert_bytes(insert_program(lens), nd, 0, 0, acc) == acc + nd.subrange(0, total_len(lens) as int),
{
    assert(lens.take(0) =~= Seq::<u8>::empty());
    lemma_inserts_from(lens, nd, 0, acc);
}

proof fn lemma_small_varint(data: Seq<u8>, p: int)
    requires
        0 <= p < data.len(),
        data[p] < 128,
    ensures
        varint(data, p) == (data[p] as u64, p + 1),
{
    let b = data[p];
    assert(b & 0x80 == 0 && ((0u64 << 7u64) | ((b & 0x7f) as u64)) == b as u64) by (bit_vector)
        requires
            b < 128,
    ;
}

/// A body of one window whose insert instructions cover its new data decodes to the
/// new data: `SVN\0`, the window header (source offset and length 0, target length,
/// instructions length, new data length, each below 128), the inserts, the new data.
pub proof fn law_one_window_of_inserts_decodes_to_new_data(tl: u8, lens: Seq<u8>, nd: Seq<u8>)
    requires
        tl < 128,
        lens.len() < 128,
        nd.len() < 128,
        forall|i: int| 0 <= i < lens.len() ==> 1 <= #[trigger] lens[i] < 64,
        total_len(lens) == nd.len(),
    ensures
        svndiff_content(
            seq![83u8, 86u8, 78u8, 0u8, 0u8, 0u8, tl, lens.len() as u8, nd.len() as u8] + insert_program(lens) + nd,
        ) == nd,
{
    let prog = insert_program(lens);
    let body = seq![83u8, 86u8, 78u8, 0u8, 0u8, 0u8, tl, lens.len() as u8, nd.len() as u8] + prog + nd;
    assert(body.subrange(0, 3) =~= seq![83u8, 86u8, 78u8]);
    assert(body[4] == 0u8);
    assert(body[5] == 0u8);
    assert(body[6] == tl);
    assert(body[7] == lens.len() as u8);
    assert(body[8] == nd.len() as u8);
    lemma_small_varint(body, 4);
    lemma_small_varint(body, 5);
    lemma_small_varint(body, 6);
    lemma_small_varint(body, 7);
    lemma_small_varint(body, 8);
    let ns: int = 9 + lens.len() as int;
    let ne: int = ns + nd.len() as int;
    assert(body.len() == ne);
    assert(body.subrange(9, ns) =~= prog);
    assert(body.subrange(ns, ne) =~= nd);
    law_inserts_take_new_data_in_order(lens, nd, Seq::empty());
    assert(Seq::<u8>::empty() + nd.subrange(0, nd.len() as int) =~= nd);
    assert(windows_from(body, ne, nd) == nd);
    assert(windows_from(body, 4, Seq::empty()) == windows_from(body, ne, nd));
}
} // verus!
