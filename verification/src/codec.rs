//! Byte-level encodings shared by the package format: little-endian integers
//! and hexadecimal text.

use vstd::prelude::*;
use crate::LxeError;

verus! {

// --- little-endian u32 / u64 ---

/// The four little-endian bytes of `n`.
pub open spec fn le32(n: u32) -> Seq<u8> {
    seq![
        (n & 0xff) as u8,
        ((n >> 8) & 0xff) as u8,
        ((n >> 16) & 0xff) as u8,
        ((n >> 24) & 0xff) as u8,
    ]
}

/// The value of four little-endian bytes.
pub open spec fn le32_val(s: Seq<u8>) -> u32
    recommends
        s.len() == 4,
{
    (s[0] as u32) | ((s[1] as u32) << 8) | ((s[2] as u32) << 16) | ((s[3] as u32) << 24)
}

pub proof fn lemma_le32_round_trip(n: u32)
    ensures
        le32_val(le32(n)) == n,
{
    assert(((n & 0xff) as u8 as u32) | (((n >> 8) & 0xff) as u8 as u32) << 8 | (((n >> 16)
        & 0xff) as u8 as u32) << 16 | (((n >> 24) & 0xff) as u8 as u32) << 24 == n)
        by (bit_vector);
}

/// The eight little-endian bytes of `n`.
pub open spec fn le64(n: u64) -> Seq<u8> {
    seq![
        (n & 0xff) as u8,
        ((n >> 8) & 0xff) as u8,
        ((n >> 16) & 0xff) as u8,
        ((n >> 24) & 0xff) as u8,
        ((n >> 32) & 0xff) as u8,
        ((n >> 40) & 0xff) as u8,
        ((n >> 48) & 0xff) as u8,
        ((n >> 56) & 0xff) as u8,
    ]
}

/// The value of eight little-endian bytes.
pub open spec fn le64_val(s: Seq<u8>) -> u64
    recommends
        s.len() == 8,
{
    (s[0] as u64) | ((s[1] as u64) << 8) | ((s[2] as u64) << 16) | ((s[3] as u64) << 24) | ((
    s[4] as u64) << 32) | ((s[5] as u64) << 40) | ((s[6] as u64) << 48) | ((s[7] as u64) << 56)
}

pub proof fn lemma_le64_round_trip(n: u64)
    ensures
        le64_val(le64(n)) == n,
{
    assert(((n & 0xff) as u8 as u64) | (((n >> 8) & 0xff) as u8 as u64) << 8 | (((n >> 16)
        & 0xff) as u8 as u64) << 16 | (((n >> 24) & 0xff) as u8 as u64) << 24 | (((n >> 32)
        & 0xff) as u8 as u64) << 32 | (((n >> 40) & 0xff) as u8 as u64) << 40 | (((n >> 48)
        & 0xff) as u8 as u64) << 48 | (((n >> 56) & 0xff) as u8 as u64) << 56 == n)
        by (bit_vector);
}

pub fn le32_encode(n: u32) -> (r: Vec<u8>)
    ensures
        r@ == le32(n),
{
    let mut v: Vec<u8> = Vec::new();
    v.push((n & 0xff) as u8);
    v.push(((n >> 8) & 0xff) as u8);
    v.push(((n >> 16) & 0xff) as u8);
    v.push(((n >> 24) & 0xff) as u8);
    proof {
        assert(v@ =~= le32(n));
    }
    v
}

pub fn le64_encode(n: u64) -> (r: Vec<u8>)
    ensures
        r@ == le64(n),
{
    let mut v: Vec<u8> = Vec::new();
    v.push((n & 0xff) as u8);
    v.push(((n >> 8) & 0xff) as u8);
    v.push(((n >> 16) & 0xff) as u8);
    v.push(((n >> 24) & 0xff) as u8);
    v.push(((n >> 32) & 0xff) as u8);
    v.push(((n >> 40) & 0xff) as u8);
    v.push(((n >> 48) & 0xff) as u8);
    v.push(((n >> 56) & 0xff) as u8);
    proof {
        assert(v@ =~= le64(n));
    }
    v
}

/// Reads the u32 encoded little-endian at `off`.
pub fn le32_read(s: &Vec<u8>, off: usize) -> (r: u32)
    requires
        off + 4 <= s@.len(),
    ensures
        r == le32_val(s@.subrange(off as int, off as int + 4)),
{
    let n = s.len();
    let b0 = s[off] as u32;
    let b1 = s[off + 1] as u32;
    let b2 = s[off + 2] as u32;
    let b3 = s[off + 3] as u32;
    let r = b0 | (b1 << 8u32) | (b2 << 16u32) | (b3 << 24u32);
    proof {
        let sub = s@.subrange(off as int, off as int + 4);
        assert(sub[0] == s@[off as int]);
        assert(sub[1] == s@[off as int + 1]);
        assert(sub[2] == s@[off as int + 2]);
        assert(sub[3] == s@[off as int + 3]);
    }
    r
}

/// Reads the u64 encoded little-endian at `off`.
pub fn le64_read(s: &Vec<u8>, off: usize) -> (r: u64)
    requires
        off + 8 <= s@.len(),
    ensures
        r == le64_val(s@.subrange(off as int, off as int + 8)),
{
    let n = s.len();
    let b0 = s[off] as u64;
    let b1 = s[off + 1] as u64;
    let b2 = s[off + 2] as u64;
    let b3 = s[off + 3] as u64;
    let b4 = s[off + 4] as u64;
    let b5 = s[off + 5] as u64;
    let b6 = s[off + 6] as u64;
    let b7 = s[off + 7] as u64;
    let r = b0 | (b1 << 8u64) | (b2 << 16u64) | (b3 << 24u64) | (b4 << 32u64) | (b5 << 40u64) | (b6
        << 48u64) | (b7 << 56u64);
    proof {
        let sub = s@.subrange(off as int, off as int + 8);
        assert(sub[0] == s@[off as int]);
        assert(sub[1] == s@[off as int + 1]);
        assert(sub[2] == s@[off as int + 2]);
        assert(sub[3] == s@[off as int + 3]);
        assert(sub[4] == s@[off as int + 4]);
        assert(sub[5] == s@[off as int + 5]);
        assert(sub[6] == s@[off as int + 6]);
        assert(sub[7] == s@[off as int + 7]);
    }
    r
}

// --- hexadecimal text (lower case) ---

/// ASCII byte of the hex digit for a nibble.
pub open spec fn hex_digit(n: u8) -> u8
    recommends
        n < 16,
{
    if n < 10 {
        (0x30 + n) as u8
    } else {
        (0x57 + n) as u8
    }
}

/// Lower-case hex text of a byte string, two digits per byte.
pub open spec fn hex_of(b: Seq<u8>) -> Seq<u8>
    decreases b.len(),
{
    if b.len() == 0 {
        Seq::empty()
    } else {
        seq![hex_digit(b[0] >> 4), hex_digit(b[0] & 0xf)] + hex_of(b.drop_first())
    }
}

pub proof fn lemma_hex_of_len(b: Seq<u8>)
    ensures
        hex_of(b).len() == 2 * b.len(),
    decreases b.len(),
{
    if b.len() > 0 {
        lemma_hex_of_len(b.drop_first());
    }
}

proof fn lemma_hex_of_push(b: Seq<u8>, x: u8)
    ensures
        hex_of(b.push(x)) == hex_of(b) + seq![hex_digit(x >> 4), hex_digit(x & 0xf)],
    decreases b.len(),
{
    if b.len() == 0 {
        assert(b.push(x)[0] == x);
        assert(b.push(x).drop_first() =~= b);
        assert(hex_of(b.push(x)) =~= hex_of(b) + seq![hex_digit(x >> 4), hex_digit(x & 0xf)]);
    } else {
        assert(b.push(x)[0] == b[0]);
        assert(b.push(x).drop_first() =~= b.drop_first().push(x));
        lemma_hex_of_push(b.drop_first(), x);
        assert(hex_of(b.push(x)) =~= seq![hex_digit(b[0] >> 4), hex_digit(b[0] & 0xf)] + hex_of(
            b.drop_first().push(x),
        ));
        assert(hex_of(b.push(x)) =~= hex_of(b) + seq![hex_digit(x >> 4), hex_digit(x & 0xf)]);
    }
}

/// Encodes bytes as lower-case hex, two digits for each byte.
pub fn hex_encode(b: &Vec<u8>) -> (r: Vec<u8>)
    ensures
        r@ == hex_of(b@),
{
    let mut out: Vec<u8> = Vec::new();
    let mut i: usize = 0;
    while i < b.len()
        invariant
            i <= b@.len(),
            out@ == hex_of(b@.subrange(0, i as int)),
        decreases b@.len() - i,
    {
        let x = b[i];
        let hi = x >> 4;
        let lo = x & 0xf;
        proof {
            assert(x >> 4 < 16 && x & 0xf < 16) by (bit_vector);
        }
        if hi < 10 {
            out.push(0x30 + hi);
        } else {
            out.push(0x57 + hi);
        }
        if lo < 10 {
            out.push(0x30 + lo);
        } else {
            out.push(0x57 + lo);
        }
        proof {
            assert(b@.subrange(0, i as int + 1) =~= b@.subrange(0, i as int).push(x));
            lemma_hex_of_push(b@.subrange(0, i as int), x);
            assert(out@ =~= hex_of(b@.subrange(0, i as int)) + seq![
                hex_digit(x >> 4),
                hex_digit(x & 0xf),
            ]);
        }
        i = i + 1;
    }
    proof {
        assert(b@.subrange(0, b@.len() as int) =~= b@);
    }
    out
}

/// True of ASCII bytes that are hex digits (either case).
pub open spec fn is_hex_byte(c: u8) -> bool {
    (0x30 <= c && c <= 0x39) || (0x61 <= c && c <= 0x66) || (0x41 <= c && c <= 0x46)
}

/// Nibble value of a hex digit byte.
pub open spec fn hex_val(c: u8) -> u8
    recommends
        is_hex_byte(c),
{
    if 0x30 <= c && c <= 0x39 {
        (c - 0x30) as u8
    } else if 0x61 <= c && c <= 0x66 {
        (c - 0x57) as u8
    } else {
        (c - 0x37) as u8
    }
}

/// Whether a byte string is well-formed hex text: even length, digits only.
pub open spec fn is_hex_text(s: Seq<u8>) -> bool {
    s.len() % 2 == 0 && (forall|i: int| 0 <= i < s.len() ==> is_hex_byte(#[trigger] s[i]))
}

/// The bytes denoted by well-formed hex text.
pub open spec fn hex_text_val(s: Seq<u8>) -> Seq<u8>
    recommends
        is_hex_text(s),
    decreases s.len(),
{
    if s.len() < 2 {
        Seq::empty()
    } else {
        seq![(hex_val(s[0]) * 16 + hex_val(s[1])) as u8] + hex_text_val(s.subrange(2, s.len() as int))
    }
}

pub proof fn lemma_hex_text_val_len(s: Seq<u8>)
    ensures
        hex_text_val(s).len() == s.len() / 2,
    decreases s.len(),
{
    if s.len() >= 2 {
        lemma_hex_text_val_len(s.subrange(2, s.len() as int));
    }
}

pub proof fn lemma_hex_digit_val(n: u8)
    requires
        n < 16,
    ensures
        is_hex_byte(hex_digit(n)),
        hex_val(hex_digit(n)) == n,
{
}

/// Decoding inverts encoding: the hex text of `b` is well-formed and denotes `b`.
pub proof fn lemma_hex_round_trip(b: Seq<u8>)
    ensures
        is_hex_text(hex_of(b)),
        hex_text_val(hex_of(b)) == b,
    decreases b.len(),
{
    lemma_hex_of_len(b);
    if b.len() == 0 {
        assert(hex_text_val(hex_of(b)) =~= b);
    } else {
        let hd = hex_of(b);
        let tl = b.drop_first();
        let x = b[0];
        lemma_hex_round_trip(tl);
        lemma_hex_of_len(tl);
        assert(x >> 4 < 16 && x & 0xf < 16 && (x >> 4) * 16 + (x & 0xf) == x) by (bit_vector);
        lemma_hex_digit_val(x >> 4);
        lemma_hex_digit_val(x & 0xf);
        assert(hd.subrange(2, hd.len() as int) =~= hex_of(tl));
        assert(forall|i: int| 0 <= i < hd.len() ==> is_hex_byte(#[trigger] hd[i])) by {
            assert(forall|i: int|
                2 <= i < hd.len() ==> hd[i] == hex_of(tl)[i - 2] && is_hex_byte(
                    #[trigger] hex_of(tl)[i - 2],
                ));
        }
        assert(hex_text_val(hex_of(b)) =~= b);
    }
}

/// Decodes hex text to bytes; refuses text of odd length or with a non-digit.
pub fn hex_decode(s: &Vec<u8>) -> (r: Result<Vec<u8>, LxeError>)
    ensures
        match r {
            Ok(b) => is_hex_text(s@) && b@ == hex_text_val(s@),
            Err(e) => !is_hex_text(s@) && e == LxeError::MetadataParseError,
        },
{
    if s.len() % 2 != 0 {
        return Err(LxeError::MetadataParseError);
    }
    let mut out: Vec<u8> = Vec::new();
    let mut i: usize = 0;
    while i < s.len()
        invariant
            i <= s@.len(),
            i % 2 == 0,
            s@.len() % 2 == 0,
            forall|j: int| 0 <= j < i ==> is_hex_byte(#[trigger] s@[j]),
            out@ == hex_text_val(s@.subrange(0, i as int)),
        decreases s@.len() - i,
    {
        let c0 = s[i];
        let c1 = s[i + 1];
        let v0 = if 0x30 <= c0 && c0 <= 0x39 {
            c0 - 0x30
        } else if 0x61 <= c0 && c0 <= 0x66 {
            c0 - 0x57
        } else if 0x41 <= c0 && c0 <= 0x46 {
            c0 - 0x37
        } else {
            return Err(LxeError::MetadataParseError);
        };
        let v1 = if 0x30 <= c1 && c1 <= 0x39 {
            c1 - 0x30
        } else if 0x61 <= c1 && c1 <= 0x66 {
            c1 - 0x57
        } else if 0x41 <= c1 && c1 <= 0x46 {
            c1 - 0x37
        } else {
            return Err(LxeError::MetadataParseError);
        };
        out.push(v0 * 16 + v1);
        proof {
            lemma_hex_prefix_step(s@, i as int);
        }
        i = i + 2;
    }
    proof {
        assert(s@.subrange(0, s@.len() as int) =~= s@);
    }
    Ok(out)
}

proof fn lemma_hex_prefix_step(s: Seq<u8>, i: int)
    requires
        0 <= i,
        i + 2 <= s.len(),
        i % 2 == 0,
    ensures
        hex_text_val(s.subrange(0, i + 2)) == hex_text_val(s.subrange(0, i)) + seq![
            (hex_val(s[i]) * 16 + hex_val(s[i + 1])) as u8,
        ],
    decreases i,
{
    if i == 0 {
        assert(s.subrange(0, 2).subrange(2, 2) =~= Seq::<u8>::empty());
        assert(s.subrange(0, 0) =~= Seq::<u8>::empty());
        assert(s.subrange(0, 2)[0] == s[0] && s.subrange(0, 2)[1] == s[1]);
        assert(hex_text_val(s.subrange(0, 2)) =~= hex_text_val(s.subrange(0, 0)) + seq![
            (hex_val(s[0]) * 16 + hex_val(s[1])) as u8,
        ]);
    } else {
        let t = s.subrange(2, s.len() as int);
        lemma_hex_prefix_step(t, i - 2);
        let a = s.subrange(0, i + 2);
        let b = s.subrange(0, i);
        assert(a.subrange(2, a.len() as int) =~= t.subrange(0, i));
        assert(b.subrange(2, b.len() as int) =~= t.subrange(0, i - 2));
        assert(t.subrange(0, i)[i - 2] == s[i] && t.subrange(0, i)[i - 1] == s[i + 1]);
        assert(t[i - 2] == s[i] && t[i - 1] == s[i + 1]);
        assert(hex_text_val(a) =~= hex_text_val(b) + seq![
            (hex_val(s[i]) * 16 + hex_val(s[i + 1])) as u8,
        ]);
    }
}

} // verus!

verus! {

/// Copies the byte range `[start, end)` out of `f`.
pub fn copy_range(f: &Vec<u8>, start: usize, end: usize) -> (r: Vec<u8>)
    requires
        start <= end,
        end <= f@.len(),
    ensures
        r@ == f@.subrange(start as int, end as int),
{
    let mut out: Vec<u8> = Vec::new();
    let mut i: usize = start;
    while i < end
        invariant
            start <= i <= end,
            end <= f@.len(),
            out@ == f@.subrange(start as int, i as int),
        decreases end - i,
    {
        out.push(f[i]);
        proof {
            assert(f@.subrange(start as int, i as int + 1) =~= f@.subrange(
                start as int,
                i as int,
            ).push(f@[i as int]));
        }
        i = i + 1;
    }
    out
}

} // verus!
