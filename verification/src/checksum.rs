//! MD5 (RFC 1321), as dump files carry it in `Text-content-md5` headers.
use vstd::prelude::*;
use crate::codec::{le32, from_le32, le64, read_le32, push_le32, push_le64};
use crate::object::{hex_lower, hex_digit};

verus! {

/// The per-round shift amounts.
pub open spec fn md5_s() -> Seq<u32> {
    seq![
        7u32, 12, 17, 22, 7, 12, 17, 22, 7, 12, 17, 22, 7, 12, 17, 22,
        5, 9, 14, 20, 5, 9, 14, 20, 5, 9, 14, 20, 5, 9, 14, 20,
        4, 11, 16, 23, 4, 11, 16, 23, 4, 11, 16, 23, 4, 11, 16, 23,
        6, 10, 15, 21, 6, 10, 15, 21, 6, 10, 15, 21, 6, 10, 15, 21
    ]
}

/// The per-round constants.
pub open spec fn md5_k() -> Seq<u32> {
    seq![
        0xd76aa478u32, 0xe8c7b756, 0x242070db, 0xc1bdceee, 0xf57c0faf, 0x4787c62a, 0xa8304613, 0xfd469501,
        0x698098d8, 0x8b44f7af, 0xffff5bb1, 0x895cd7be, 0x6b901122, 0xfd987193, 0xa679438e, 0x49b40821,
        0xf61e2562, 0xc040b340, 0x265e5a51, 0xe9b6c7aa, 0xd62f105d, 0x02441453, 0xd8a1e681, 0xe7d3fbc8,
        0x21e1cde6, 0xc33707d6, 0xf4d50d87, 0x455a14ed, 0xa9e3e905, 0xfcefa3f8, 0x676f02d9, 0x8d2a4c8a,
        0xfffa3942, 0x8771f681, 0x6d9d6122, 0xfde5380c, 0xa4beea44, 0x4bdecfa9, 0xf6bb4b60, 0xbebfbc70,
        0x289b7ec6, 0xeaa127fa, 0xd4ef3085, 0x04881d05, 0xd9d4d039, 0xe6db99e5, 0x1fa27cf8, 0xc4ac5665,
        0xf4292244, 0x432aff97, 0xab9423a7, 0xfc93a039, 0x655b59c3, 0x8f0ccc92, 0xffeff47d, 0x85845dd1,
        0x6fa87e4f, 0xfe2ce6e0, 0xa3014314, 0x4e0811a1, 0xf7537e82, 0xbd3af235, 0x2ad7d2bb, 0xeb86d391
    ]
}

/// Addition modulo 2^32.
pub open spec fn wadd(x: u32, y: u32) -> u32 {
    ((x as int + y as int) % 0x1_0000_0000) as u32
}

/// Rotation left by `s` bits, `0 < s < 32`.
pub open spec fn rotl(x: u32, s: u32) -> u32 {
    (x << s) | (x >> ((32 - s) as u32))
}

/// The round function of round `i`.
pub open spec fn md5_f(i: int, b: u32, c: u32, d: u32) -> u32 {
    if i < 16 {
        (b & c) | (!b & d)
    } else if i < 32 {
        (d & b) | (!d & c)
    } else if i < 48 {
        b ^ c ^ d
    } else {
        c ^ (b | !d)
    }
}

/// The message word that round `i` reads.
pub open spec fn md5_g(i: int) -> int {
    if i < 16 {
        i
    } else if i < 32 {
        (5 * i + 1) % 16
    } else if i < 48 {
        (3 * i + 5) % 16
    } else {
        (7 * i) % 16
    }
}

/// Word `g` of a 64-byte block, little-endian.
pub open spec fn md5_word(block: Seq<u8>, g: int) -> u32 {
    from_le32(block.subrange(4 * g, 4 * g + 4))
}

/// The four state words.
pub type Md5State = (u32, u32, u32, u32);

/// One round of a block.
pub open spec fn md5_step(st: Md5State, block: Seq<u8>, i: int) -> Md5State {
    let f = wadd(wadd(wadd(md5_f(i, st.1, st.2, st.3), st.0), md5_k()[i]), md5_word(block, md5_g(i)));
    (st.3, wadd(st.1, rotl(f, md5_s()[i])), st.1, st.2)
}

/// The first `n` rounds of a block.
pub open spec fn md5_rounds(st: Md5State, block: Seq<u8>, n: nat) -> Md5State
    decreases n,
{
    if n == 0 {
        st
    } else {
        md5_step(md5_rounds(st, block, (n - 1) as nat), block, n - 1)
    }
}

/// The state after the first `n` blocks of a padded message.
pub open spec fn md5_blocks(h: Md5State, msg: Seq<u8>, n: nat) -> Md5State
    decreases n,
{
    if n == 0 {
        h
    } else {
        let h1 = md5_blocks(h, msg, (n - 1) as nat);
        let r = md5_rounds(h1, msg.subrange(64 * (n - 1), 64 * n as int), 64);
        (wadd(h1.0, r.0), wadd(h1.1, r.1), wadd(h1.2, r.2), wadd(h1.3, r.3))
    }
}

/// The number of zero bytes after the `0x80` byte of the padding.
pub open spec fn md5_zeros(len: nat) -> nat {
    ((56 - (len + 1) % 64 + 64) % 64) as nat
}

/// The padded message: the data, `0x80`, zeros up to 56 modulo 64, then the bit length
/// as 8 bytes little-endian.
pub open spec fn md5_pad(data: Seq<u8>) -> Seq<u8> {
    data + seq![0x80u8] + Seq::new(md5_zeros(data.len()), |i: int| 0u8) + le64((data.len() * 8) as u64)
}

/// The initial state.
pub open spec fn md5_init() -> Md5State {
    (0x67452301u32, 0xefcdab89u32, 0x98badcfeu32, 0x10325476u32)
}

/// The MD5 digest of `data`.
pub open spec fn md5_digest(data: Seq<u8>) -> Seq<u8> {
    let msg = md5_pad(data);
    let h = md5_blocks(md5_init(), msg, msg.len() / 64);
    le32(h.0) + le32(h.1) + le32(h.2) + le32(h.3)
}

fn wadd_exec(x: u32, y: u32) -> (r: u32)
    ensures
        r == wadd(x, y),
{
    ((x as u64 + y as u64) % 0x1_0000_0000) as u32
}

fn rotl_exec(x: u32, s: u32) -> (r: u32)
    requires
        0 < s < 32,
    ensures
        r == rotl(x, s),
{
    (x << s) | (x >> (32 - s))
}

/// The padded message.
#[verifier::spinoff_prover]
#[verifier::rlimit(40)]
fn pad_message(data: &[u8]) -> (msg: Vec<u8>)
    requires
        data@.len() * 8 <= u64::MAX,
    ensures
        msg@ == md5_pad(data@),
        msg@.len() % 64 == 0,
{
    let mut msg: Vec<u8> = Vec::new();
    crate::codec::push_all(&mut msg, data);
    msg.push(0x80u8);
    let ghost z = md5_zeros(data@.len());
    let mut j: usize = 0;
    while msg.len() % 64 != 56
        invariant
            msg@ == data@ + seq![0x80u8] + Seq::new(j as nat, |i: int| 0u8),
            j <= z,
            z == md5_zeros(data@.len()),
            z < 64,
            data@.len() * 8 <= u64::MAX,
            (data@.len() + 1 + z) % 64 == 56,
        decreases z - j,
    {
        assert(j != z);
        msg.push(0u8);
        j = j + 1;
        assert(msg@ =~= data@ + seq![0x80u8] + Seq::new(j as nat, |i: int| 0u8));
    }
    assert(j == z);
    let bits: u64 = (data.len() as u64) * 8;
    push_le64(&mut msg, bits);
    msg
}

/// The MD5 digest of `data`.
pub fn md5_compute(data: &[u8]) -> (r: [u8; 16])
    requires
        data@.len() * 8 <= u64::MAX,
    ensures
        r@ == md5_digest(data@),
{
    let s: [u32; 64] = [
        7, 12, 17, 22, 7, 12, 17, 22, 7, 12, 17, 22, 7, 12, 17, 22,
        5, 9, 14, 20, 5, 9, 14, 20, 5, 9, 14, 20, 5, 9, 14, 20,
        4, 11, 16, 23, 4, 11, 16, 23, 4, 11, 16, 23, 4, 11, 16, 23,
        6, 10, 15, 21, 6, 10, 15, 21, 6, 10, 15, 21, 6, 10, 15, 21,
    ];
    let k: [u32; 64] = [
        0xd76aa478, 0xe8c7b756, 0x242070db, 0xc1bdceee, 0xf57c0faf, 0x4787c62a, 0xa8304613, 0xfd469501,
        0x698098d8, 0x8b44f7af, 0xffff5bb1, 0x895cd7be, 0x6b901122, 0xfd987193, 0xa679438e, 0x49b40821,
        0xf61e2562, 0xc040b340, 0x265e5a51, 0xe9b6c7aa, 0xd62f105d, 0x02441453, 0xd8a1e681, 0xe7d3fbc8,
        0x21e1cde6, 0xc33707d6, 0xf4d50d87, 0x455a14ed, 0xa9e3e905, 0xfcefa3f8, 0x676f02d9, 0x8d2a4c8a,
        0xfffa3942, 0x8771f681, 0x6d9d6122, 0xfde5380c, 0xa4beea44, 0x4bdecfa9, 0xf6bb4b60, 0xbebfbc70,
        0x289b7ec6, 0xeaa127fa, 0xd4ef3085, 0x04881d05, 0xd9d4d039, 0xe6db99e5, 0x1fa27cf8, 0xc4ac5665,
        0xf4292244, 0x432aff97, 0xab9423a7, 0xfc93a039, 0x655b59c3, 0x8f0ccc92, 0xffeff47d, 0x85845dd1,
        0x6fa87e4f, 0xfe2ce6e0, 0xa3014314, 0x4e0811a1, 0xf7537e82, 0xbd3af235, 0x2ad7d2bb, 0xeb86d391,
    ];
    assert(s@ =~= md5_s());
    assert(k@ =~= md5_k());
    let msg = pad_message(data);
    let mut a0: u32 = 0x67452301;
    let mut b0: u32 = 0xefcdab89;
    let mut c0: u32 = 0x98badcfe;
    let mut d0: u32 = 0x10325476;
    let mlen = msg.len();
    let nblocks = mlen / 64;
    let mut n: usize = 0;
    while n < nblocks
        invariant
            n <= nblocks,
            mlen == msg@.len(),
            nblocks == msg@.len() / 64,
            s@ == md5_s(),
            k@ == md5_k(),
            (a0, b0, c0, d0) == md5_blocks(md5_init(), msg@, n as nat),
        decreases nblocks - n,
    {
        assert(64 * n + 64 <= msg@.len()) by (nonlinear_arith)
            requires
                n < nblocks,
                nblocks == msg@.len() / 64,
        ;
        let base = 64 * n;
        let ghost block = msg@.subrange(base as int, base + 64);
        let mut m: [u32; 16] = [0u32; 16];
        let mut w: usize = 0;
        while w < 16
            invariant
                w <= 16,
                n < nblocks,
                nblocks == msg@.len() / 64,
                base == 64 * n,
                base + 64 <= msg@.len(),
                block == msg@.subrange(base as int, base + 64),
                forall|t: int| 0 <= t < w ==> m@[t] == md5_word(block, t),
            decreases 16 - w,
        {
            let x = read_le32(msg.as_slice(), base + 4 * w);
            proof {
                assert(msg@.subrange(base + 4 * w, base + 4 * w + 4) =~= block.subrange(4 * w, 4 * w + 4));
            }
            m.set(w, x);
            w = w + 1;
        }
        let mut a = a0;
        let mut b = b0;
        let mut c = c0;
        let mut d = d0;
        let mut i: usize = 0;
        while i < 64
            invariant
                i <= 64,
                s@ == md5_s(),
                k@ == md5_k(),
                forall|t: int| 0 <= t < 16 ==> m@[t] == md5_word(block, t),
                (a, b, c, d) == md5_rounds((a0, b0, c0, d0), block, i as nat),
            decreases 64 - i,
        {
            let (f, g): (u32, usize) = if i < 16 {
                ((b & c) | (!b & d), i)
            } else if i < 32 {
                ((d & b) | (!d & c), (5 * i + 1) % 16)
            } else if i < 48 {
                (b ^ c ^ d, (3 * i + 5) % 16)
            } else {
                (c ^ (b | !d), (7 * i) % 16)
            };
            assert(f == md5_f(i as int, b, c, d));
            assert(g == md5_g(i as int));
            let f2 = wadd_exec(wadd_exec(wadd_exec(f, a), k[i]), m[g]);
            proof {
                assert(0 < md5_s()[i as int] < 32) by {
                    assert(forall|t: int| 0 <= t < 64 ==> 0 < #[trigger] md5_s()[t] < 32);
                }
            }
            let nb = wadd_exec(b, rotl_exec(f2, s[i]));
            a = d;
            d = c;
            c = b;
            b = nb;
            i = i + 1;
        }
        a0 = wadd_exec(a0, a);
        b0 = wadd_exec(b0, b);
        c0 = wadd_exec(c0, c);
        d0 = wadd_exec(d0, d);
        n = n + 1;
        proof {
            assert(msg@.subrange(64 * (n - 1), 64 * n) == block);
        }
    }
    assert(nblocks == md5_pad(data@).len() / 64);
    let mut out: Vec<u8> = Vec::new();
    push_le32(&mut out, a0);
    push_le32(&mut out, b0);
    push_le32(&mut out, c0);
    push_le32(&mut out, d0);
    let mut r = [0u8; 16];
    let mut j: usize = 0;
    while j < 16
        invariant
            j <= 16,
            out@.len() == 16,
            forall|t: int| 0 <= t < j ==> r@[t] == out@[t],
        decreases 16 - j,
    {
        r.set(j, out[j]);
        j = j + 1;
    }
    assert(r@ =~= out@);
    r
}

/// The lower-case hexadecimal digit for `d < 16`.
fn hex_digit_char(d: u8) -> (c: char)
    requires
        d < 16,
    ensures
        c == hex_digit(d as nat),
{
    if d < 10 {
        crate::text::digit_to_char(d as u64)
    } else if d == 10 {
        'a'
    } else if d == 11 {
        'b'
    } else if d == 12 {
        'c'
    } else if d == 13 {
        'd'
    } else if d == 14 {
        'e'
    } else {
        'f'
    }
}

/// Lower-case hexadecimal text of bytes.
pub fn hex_string(b: &[u8]) -> (s: String)
    ensures
        s@ == hex_lower(b@),
{
    let mut s = String::new();
    let mut i: usize = 0;
    assert(b@.subrange(0, 0) =~= Seq::<u8>::empty());
    while i < b.len()
        invariant
            i <= b@.len(),
            s@ == hex_lower(b@.subrange(0, i as int)),
        decreases b@.len() - i,
    {
        let x = b[i];
        let hi = hex_digit_char(x / 16);
        let lo = hex_digit_char(x % 16);
        let ghost before = s@;
        crate::text::string_push(&mut s, hi);
        crate::text::string_push(&mut s, lo);
        proof {
            assert(b@.subrange(0, i + 1).drop_last() =~= b@.subrange(0, i as int));
            assert(s@ =~= before + seq![hex_digit((x / 16) as nat), hex_digit((x % 16) as nat)]);
        }
        i = i + 1;
    }
    assert(b@.subrange(0, b@.len() as int) =~= b@);
    s
}

/// The MD5 digest of `data` in lower-case hexadecimal.
pub fn md5_hex(data: &[u8]) -> (s: String)
    requires
        data@.len() * 8 <= u64::MAX,
    ensures
        s@ == hex_lower(md5_digest(data@)),
{
    let d = md5_compute(data);
    hex_string(vstd::array::array_as_slice(&d))
}

} // verus!
