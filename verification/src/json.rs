//! Canonical JSON text at the byte level: string escaping, decimal numbers,
//! booleans and flat string arrays, with parsers that invert the writers.
//!
//! The writers emit compact JSON in a single canonical shape; the parsers
//! accept exactly that shape (plus upper-case hex in escapes), so that the
//! serialization of the metadata is byte-stable and invertible.

use vstd::prelude::*;

use crate::LxeError;
use crate::codec::{hex_digit, hex_val, is_hex_byte, lemma_hex_digit_val};

verus! {

/// A byte sequence of ASCII characters, as the view of a string literal.
pub open spec fn ascii_seq(s: Seq<char>) -> Seq<u8> {
    Seq::new(s.len(), |i: int| s[i] as u8)
}

/// Appends the bytes of an ASCII literal.
pub fn emit_lit(out: &mut Vec<u8>, lit: &str)
    requires
        vstd::string::is_ascii(lit),
    ensures
        final(out)@ == old(out)@ + ascii_seq(lit@),
{
    proof {
        vstd::string::is_ascii_spec_bytes(lit);
    }
    out.extend_from_slice(lit.as_bytes());
    proof {
        assert(out@ =~= old(out)@ + ascii_seq(lit@));
    }
}

/// The bytes of an ASCII literal stand at position `i` of `f`.
pub open spec fn has_at(f: Seq<u8>, i: int, lit: Seq<u8>) -> bool {
    0 <= i && i + lit.len() <= f.len() && f.subrange(i, i + lit.len()) == lit
}

/// Tests whether the bytes of `lit` stand at position `i`.
pub fn match_lit(f: &Vec<u8>, i: usize, lit: &str) -> (r: bool)
    requires
        vstd::string::is_ascii(lit),
    ensures
        r == has_at(f@, i as int, ascii_seq(lit@)),
{
    proof {
        vstd::string::is_ascii_spec_bytes(lit);
    }
    let b = lit.as_bytes();
    let n = f.len();
    let m = b.len();
    if i > n || n - i < m {
        return false;
    }
    let mut j: usize = 0;
    while j < m
        invariant
            j <= m,
            m == b@.len(),
            i + m <= n,
            n == f@.len(),
            b@ == ascii_seq(lit@),
            forall|t: int| 0 <= t < j ==> f@[i + t] == b@[t],
        decreases m - j,
    {
        if f[i + j] != b[j] {
            proof {
                assert(f@.subrange(i as int, i as int + m) == ascii_seq(lit@) ==> f@.subrange(
                    i as int,
                    i as int + m,
                )[j as int] == b@[j as int]);
            }
            return false;
        }
        j = j + 1;
    }
    proof {
        assert(f@.subrange(i as int, i as int + m) =~= b@);
    }
    true
}

// --- JSON strings ---

/// The escape of one byte inside a JSON string: quote and backslash escaped,
/// control bytes written `\u00XX`, everything else written raw.
pub open spec fn esc_byte(b: u8) -> Seq<u8> {
    if b == 0x22 {
        seq![0x5cu8, 0x22u8]
    } else if b == 0x5c {
        seq![0x5cu8, 0x5cu8]
    } else if b < 0x20 {
        seq![0x5cu8, 0x75u8, 0x30u8, 0x30u8, hex_digit(b >> 4), hex_digit(b & 0xf)]
    } else {
        seq![b]
    }
}

/// The escape of a whole byte string.
pub open spec fn esc(s: Seq<u8>) -> Seq<u8>
    decreases s.len(),
{
    if s.len() == 0 {
        Seq::empty()
    } else {
        esc_byte(s[0]) + esc(s.drop_first())
    }
}

/// A JSON string literal: quote, escaped bytes, quote.
pub open spec fn jstr(s: Seq<u8>) -> Seq<u8> {
    seq![0x22u8] + esc(s) + seq![0x22u8]
}

pub proof fn lemma_esc_push(s: Seq<u8>, x: u8)
    ensures
        esc(s.push(x)) == esc(s) + esc_byte(x),
    decreases s.len(),
{
    if s.len() == 0 {
        assert(s.push(x)[0] == x);
        assert(s.push(x).drop_first() =~= s);
        assert(esc(s.push(x)) =~= esc(s) + esc_byte(x));
    } else {
        assert(s.push(x)[0] == s[0]);
        assert(s.push(x).drop_first() =~= s.drop_first().push(x));
        lemma_esc_push(s.drop_first(), x);
        assert(esc(s.push(x)) =~= esc_byte(s[0]) + esc(s.drop_first().push(x)));
        assert(esc(s.push(x)) =~= esc(s) + esc_byte(x));
    }
}

/// Appends the JSON string literal for `s`.
pub fn emit_jstr(out: &mut Vec<u8>, s: &Vec<u8>)
    ensures
        final(out)@ == old(out)@ + jstr(s@),
{
    out.push(0x22);
    let ghost base = out@;
    let mut i: usize = 0;
    while i < s.len()
        invariant
            i <= s@.len(),
            out@ == base + esc(s@.subrange(0, i as int)),
        decreases s@.len() - i,
    {
        let b = s[i];
        if b == 0x22 {
            out.push(0x5c);
            out.push(0x22);
        } else if b == 0x5c {
            out.push(0x5c);
            out.push(0x5c);
        } else if b < 0x20 {
            out.push(0x5c);
            out.push(0x75);
            out.push(0x30);
            out.push(0x30);
            let hi = b >> 4;
            let lo = b & 0xf;
            proof {
                assert(b >> 4 < 16 && b & 0xf < 16) by (bit_vector);
            }
            if hi < 10 {
                out.push(0x30 + hi);
            } else {
                out.push(0x57 + hi);
            }
            if lo < 10 {
                out.push(0x30 + lo);
            } else {
                out.push(0x57 + lo);
            }
        } else {
            out.push(b);
        }
        proof {
            assert(s@.subrange(0, i as int + 1) =~= s@.subrange(0, i as int).push(b));
            lemma_esc_push(s@.subrange(0, i as int), b);
            assert(out@ =~= base + esc(s@.subrange(0, i as int)) + esc_byte(b));
            assert(out@ =~= base + esc(s@.subrange(0, i as int + 1)));
        }
        i = i + 1;
    }
    out.push(0x22);
    proof {
        assert(s@.subrange(0, s@.len() as int) =~= s@);
        assert(out@ =~= old(out)@ + jstr(s@));
    }
}

/// Parses the body of a JSON string from position `i` (after the opening
/// quote) to the closing quote: the decoded bytes and the position after.
pub open spec fn sp_str_body(s: Seq<u8>, i: int) -> Option<(Seq<u8>, int)>
    decreases s.len() - i,
{
    if i < 0 || i >= s.len() {
        None
    } else if s[i] == 0x22 {
        Some((Seq::empty(), i + 1))
    } else if s[i] == 0x5c {
        if i + 1 >= s.len() {
            None
        } else if s[i + 1] == 0x22 || s[i + 1] == 0x5c {
            match sp_str_body(s, i + 2) {
                Some((rest, j)) => Some((seq![s[i + 1]] + rest, j)),
                None => None,
            }
        } else if s[i + 1] == 0x75 {
            if i + 6 <= s.len() && s[i + 2] == 0x30 && s[i + 3] == 0x30 && is_hex_byte(s[i + 4])
                && is_hex_byte(s[i + 5]) {
                match sp_str_body(s, i + 6) {
                    Some((rest, j)) => Some(
                        (seq![(hex_val(s[i + 4]) * 16 + hex_val(s[i + 5])) as u8] + rest, j),
                    ),
                    None => None,
                }
            } else {
                None
            }
        } else {
            None
        }
    } else {
        match sp_str_body(s, i + 1) {
            Some((rest, j)) => Some((seq![s[i]] + rest, j)),
            None => None,
        }
    }
}

/// Parses a JSON string literal at position `i`.
pub open spec fn sp_str(s: Seq<u8>, i: int) -> Option<(Seq<u8>, int)> {
    if 0 <= i && i < s.len() && s[i] == 0x22 {
        sp_str_body(s, i + 1)
    } else {
        None
    }
}

pub proof fn lemma_sp_str_body_bounds(s: Seq<u8>, i: int)
    requires
        sp_str_body(s, i) is Some,
    ensures
        i < sp_str_body(s, i)->Some_0.1 <= s.len(),
    decreases s.len() - i,
{
    if s[i] == 0x22 {
    } else if s[i] == 0x5c {
        if s[i + 1] == 0x22 || s[i + 1] == 0x5c {
            lemma_sp_str_body_bounds(s, i + 2);
        } else {
            lemma_sp_str_body_bounds(s, i + 6);
        }
    } else {
        lemma_sp_str_body_bounds(s, i + 1);
    }
}

pub proof fn lemma_sp_str_bounds(s: Seq<u8>, i: int)
    requires
        sp_str(s, i) is Some,
    ensures
        i + 1 < sp_str(s, i)->Some_0.1 <= s.len(),
{
    lemma_sp_str_body_bounds(s, i + 1);
}

/// Splitting a known concatenation: where `a + b` stands at `i`, the two
/// parts stand at `i` and `i + a.len()`.
pub proof fn lemma_split_at(s: Seq<u8>, i: int, a: Seq<u8>, b: Seq<u8>)
    requires
        0 <= i,
        i + a.len() + b.len() <= s.len(),
        s.subrange(i, i + a.len() + b.len()) == a + b,
    ensures
        s.subrange(i, i + a.len()) == a,
        s.subrange(i + a.len(), i + a.len() + b.len()) == b,
{
    let w = s.subrange(i, i + a.len() + b.len());
    assert(s.subrange(i, i + a.len()) =~= a) by {
        assert forall|t: int| 0 <= t < a.len() implies s.subrange(i, i + a.len())[t] == a[t] by {
            assert(w[t] == (a + b)[t]);
        }
    }
    assert(s.subrange(i + a.len(), i + a.len() + b.len()) =~= b) by {
        assert forall|t: int|
            0 <= t < b.len() implies s.subrange(i + a.len(), i + a.len() + b.len())[t] == b[t] by {
            assert(w[a.len() + t] == (a + b)[a.len() + t]);
        }
    }
}

/// Joining two known ranges: where `a` stands at `i` and `b` directly after
/// it, their concatenation stands at `i`.
pub proof fn lemma_join_at(s: Seq<u8>, i: int, a: Seq<u8>, b: Seq<u8>)
    requires
        0 <= i,
        i + a.len() + b.len() <= s.len(),
        s.subrange(i, i + a.len()) == a,
        s.subrange(i + a.len(), i + a.len() + b.len()) == b,
    ensures
        s.subrange(i, i + a.len() + b.len()) == a + b,
{
    assert(s.subrange(i, i + a.len() + b.len()) =~= a + b) by {
        assert forall|t: int|
            0 <= t < a.len() + b.len() implies s.subrange(i, i + a.len() + b.len())[t] == (a
            + b)[t] by {
            if t < a.len() {
                assert(s.subrange(i, i + a.len())[t] == a[t]);
            } else {
                assert(s.subrange(i + a.len(), i + a.len() + b.len())[t - a.len()] == b[t
                    - a.len()]);
            }
        }
    }
}

/// Parsing inverts escaping: where the escape of `v` and a closing quote
/// stand at `i`, the string body parser recovers `v` exactly.
pub proof fn lemma_sp_str_body_rt(s: Seq<u8>, i: int, v: Seq<u8>)
    requires
        0 <= i,
        i + esc(v).len() + 1 <= s.len(),
        s.subrange(i, i + esc(v).len() + 1) == esc(v) + seq![0x22u8],
    ensures
        sp_str_body(s, i) == Some((v, i + esc(v).len() + 1)),
    decreases v.len(),
{
    let e = esc(v);
    if v.len() == 0 {
        assert(s.subrange(i, i + 1)[0] == (e + seq![0x22u8])[0]);
        assert(s[i] == 0x22);
        assert(sp_str_body(s, i) == Some((Seq::<u8>::empty(), i + 1)));
        assert(Seq::<u8>::empty() =~= v);
    } else {
        let b = v[0];
        let tl = v.drop_first();
        let eb = esc_byte(b);
        assert(e == eb + esc(tl));
        let rest = esc(tl) + seq![0x22u8];
        assert(e + seq![0x22u8] =~= eb + rest);
        lemma_split_at(s, i, eb, rest);
        let sub1 = s.subrange(i, i + eb.len());
        assert(sub1 == eb);
        lemma_sp_str_body_rt(s, i + eb.len(), tl);
        if b == 0x22 || b == 0x5c {
            assert(sub1[0] == eb[0] && sub1[1] == eb[1]);
            assert(s[i] == 0x5c && s[i + 1] == b);
            assert(sp_str_body(s, i) == Some((seq![s[i + 1]] + tl, i + e.len() + 1)));
            assert(seq![s[i + 1]] + tl =~= v);
        } else if b < 0x20 {
            assert(sub1[0] == eb[0] && sub1[1] == eb[1] && sub1[2] == eb[2] && sub1[3] == eb[3]
                && sub1[4] == eb[4] && sub1[5] == eb[5]);
            assert(s[i] == 0x5c && s[i + 1] == 0x75 && s[i + 2] == 0x30 && s[i + 3] == 0x30);
            assert(s[i + 4] == hex_digit(b >> 4) && s[i + 5] == hex_digit(b & 0xf));
            assert(b >> 4 < 16 && b & 0xf < 16 && (b >> 4) * 16 + (b & 0xf) == b) by (bit_vector);
            lemma_hex_digit_val(b >> 4);
            lemma_hex_digit_val(b & 0xf);
            assert(sp_str_body(s, i) == Some(
                (seq![(hex_val(s[i + 4]) * 16 + hex_val(s[i + 5])) as u8] + tl, i + e.len() + 1),
            ));
            assert(seq![(hex_val(s[i + 4]) * 16 + hex_val(s[i + 5])) as u8] + tl =~= v);
        } else {
            assert(sub1[0] == eb[0]);
            assert(s[i] == b && b != 0x22 && b != 0x5c);
            assert(sp_str_body(s, i) == Some((seq![s[i]] + tl, i + e.len() + 1)));
            assert(seq![s[i]] + tl =~= v);
        }
    }
}

/// Parsing inverts writing for whole JSON string literals.
pub proof fn lemma_sp_str_rt(s: Seq<u8>, i: int, v: Seq<u8>)
    requires
        0 <= i,
        i + jstr(v).len() <= s.len(),
        s.subrange(i, i + jstr(v).len()) == jstr(v),
    ensures
        sp_str(s, i) == Some((v, i + jstr(v).len())),
{
    assert(jstr(v) =~= seq![0x22u8] + (esc(v) + seq![0x22u8]));
    lemma_split_at(s, i, seq![0x22u8], esc(v) + seq![0x22u8]);
    assert(s.subrange(i, i + 1)[0] == seq![0x22u8][0]);
    assert(s[i] == 0x22);
    lemma_sp_str_body_rt(s, i + 1, v);
}

} // verus!

verus! {

// --- decimal numbers ---

/// Powers of ten.
pub open spec fn pow10(k: nat) -> int
    decreases k,
{
    if k == 0 {
        1
    } else {
        10 * pow10((k - 1) as nat)
    }
}

/// An ASCII decimal digit.
pub open spec fn is_digit(b: u8) -> bool {
    0x30 <= b && b <= 0x39
}

/// The canonical decimal text of `n`: no sign, no leading zero.
pub open spec fn dec_u64(n: u64) -> Seq<u8>
    decreases n,
{
    if n < 10 {
        seq![(0x30 + n) as u8]
    } else {
        dec_u64((n / 10) as u64) + seq![(0x30 + n % 10) as u8]
    }
}

/// One past the last digit of the digit run beginning at `i`.
pub open spec fn digit_run_end(s: Seq<u8>, i: int) -> int
    decreases s.len() - i,
{
    if 0 <= i && i < s.len() && is_digit(s[i]) {
        digit_run_end(s, i + 1)
    } else {
        i
    }
}

/// Left fold of decimal digits onto an accumulator.
pub open spec fn dval(d: Seq<u8>, acc: int) -> int
    decreases d.len(),
{
    if d.len() == 0 {
        acc
    } else {
        dval(d.drop_first(), acc * 10 + (d[0] - 0x30))
    }
}

/// Parses an unsigned decimal number at `i`: digits up to the first
/// non-digit; refuses a leading zero, more than twenty digits, or a value
/// past `u64::MAX`.
pub open spec fn sp_u64(s: Seq<u8>, i: int) -> Option<(u64, int)> {
    if !(0 <= i && i < s.len() && is_digit(s[i])) {
        None
    } else {
        let e = digit_run_end(s, i);
        if e - i > 1 && s[i] == 0x30 {
            None
        } else if e - i > 20 {
            None
        } else {
            let v = dval(s.subrange(i, e), 0);
            if v > u64::MAX {
                None
            } else {
                Some((v as u64, e))
            }
        }
    }
}

pub proof fn lemma_dec_u64_digits(n: u64)
    ensures
        1 <= dec_u64(n).len(),
        forall|t: int| 0 <= t < dec_u64(n).len() ==> is_digit(#[trigger] dec_u64(n)[t]),
        n < 10 ==> dec_u64(n).len() == 1,
        n >= 10 ==> dec_u64(n)[0] == dec_u64((n / 10) as u64)[0],
        dec_u64(n)[0] == 0x30 ==> n == 0,
    decreases n,
{
    if n >= 10 {
        lemma_dec_u64_digits((n / 10) as u64);
    }
}

pub proof fn lemma_dec_u64_len(n: u64, k: nat)
    requires
        1 <= k,
        n < pow10(k),
    ensures
        dec_u64(n).len() <= k,
    decreases n,
{
    if n < 10 {
    } else {
        let m = (n / 10) as u64;
        assert(pow10(k) == 10 * pow10((k - 1) as nat));
        assert(m < pow10((k - 1) as nat)) by (nonlinear_arith)
            requires
                n < 10 * pow10((k - 1) as nat),
                m == n / 10,
        ;
        assert(pow10((k - 1) as nat) >= 1) by {
            lemma_pow10_pos((k - 1) as nat);
        }
        assert(k - 1 >= 1) by {
            if k == 1 {
                assert(pow10(1nat) == 10);
                assert(false);
            }
        }
        lemma_dec_u64_len(m, (k - 1) as nat);
    }
}

pub proof fn lemma_pow10_pos(k: nat)
    ensures
        pow10(k) >= 1,
    decreases k,
{
    if k > 0 {
        lemma_pow10_pos((k - 1) as nat);
    }
}

pub proof fn lemma_pow10_20()
    ensures
        pow10(20) == 100000000000000000000,
{
    assert(pow10(0) == 1);
    assert(pow10(1) == 10);
    assert(pow10(2) == 100);
    assert(pow10(3) == 1000);
    assert(pow10(4) == 10000);
    assert(pow10(5) == 100000);
    assert(pow10(6) == 1000000);
    assert(pow10(7) == 10000000);
    assert(pow10(8) == 100000000);
    assert(pow10(9) == 1000000000);
    assert(pow10(10) == 10000000000);
    assert(pow10(11) == 100000000000);
    assert(pow10(12) == 1000000000000);
    assert(pow10(13) == 10000000000000);
    assert(pow10(14) == 100000000000000);
    assert(pow10(15) == 1000000000000000);
    assert(pow10(16) == 10000000000000000);
    assert(pow10(17) == 100000000000000000);
    assert(pow10(18) == 1000000000000000000);
    assert(pow10(19) == 10000000000000000000);
    assert(pow10(20) == 100000000000000000000);
}

pub proof fn lemma_dval_push(d: Seq<u8>, x: u8, acc: int)
    ensures
        dval(d.push(x), acc) == dval(d, acc) * 10 + (x - 0x30),
    decreases d.len(),
{
    if d.len() == 0 {
        assert(d.push(x)[0] == x);
        assert(d.push(x).drop_first() =~= d);
        assert(dval(d.push(x), acc) == dval(d.push(x).drop_first(), acc * 10 + (d.push(x)[0]
            - 0x30)));
        assert(dval(d.push(x), acc) == dval(d, acc * 10 + (x - 0x30)));
    } else {
        assert(d.push(x)[0] == d[0]);
        assert(d.push(x).drop_first() =~= d.drop_first().push(x));
        lemma_dval_push(d.drop_first(), x, acc * 10 + (d[0] - 0x30));
        assert(dval(d.push(x), acc) == dval(d.push(x).drop_first(), acc * 10 + (d.push(x)[0]
            - 0x30)));
        assert(dval(d.push(x), acc) == dval(d.drop_first().push(x), acc * 10 + (d[0] - 0x30)));
        assert(dval(d, acc) == dval(d.drop_first(), acc * 10 + (d[0] - 0x30)));
    }
}

pub proof fn lemma_dec_dval(n: u64)
    ensures
        dval(dec_u64(n), 0) == n,
    decreases n,
{
    if n < 10 {
        assert(dec_u64(n) == seq![(0x30 + n) as u8]);
        assert(dec_u64(n).drop_first() =~= Seq::<u8>::empty());
        assert(dec_u64(n)[0] == (0x30 + n) as u8);
        assert(dval(dec_u64(n), 0) == dval(dec_u64(n).drop_first(), 0 * 10 + (dec_u64(n)[0]
            - 0x30)));
        assert(dval(dec_u64(n), 0) == dval(Seq::<u8>::empty(), n as int));
        assert(dval(Seq::<u8>::empty(), n as int) == n);
    } else {
        let m = (n / 10) as u64;
        let d = (0x30 + n % 10) as u8;
        lemma_dec_dval(m);
        assert(dec_u64(m) + seq![d] =~= dec_u64(m).push(d));
        lemma_dval_push(dec_u64(m), d, 0);
        assert(dval(dec_u64(n), 0) == dval(dec_u64(m), 0) * 10 + (d - 0x30));
    }
}

/// The digit run starting at `i` ends exactly where digits stop.
pub proof fn lemma_run_end(s: Seq<u8>, i: int, e: int)
    requires
        0 <= i <= e <= s.len(),
        forall|t: int| i <= t < e ==> is_digit(#[trigger] s[t]),
        e == s.len() || !is_digit(s[e]),
    ensures
        digit_run_end(s, i) == e,
    decreases e - i,
{
    if i < e {
        lemma_run_end(s, i + 1, e);
    }
}

/// Parsing inverts writing for decimal numbers, given a non-digit terminator.
pub proof fn lemma_sp_u64_rt(s: Seq<u8>, i: int, n: u64)
    requires
        0 <= i,
        i + dec_u64(n).len() <= s.len(),
        s.subrange(i, i + dec_u64(n).len()) == dec_u64(n),
        i + dec_u64(n).len() == s.len() || !is_digit(s[i + dec_u64(n).len()]),
    ensures
        sp_u64(s, i) == Some((n, i + dec_u64(n).len())),
{
    let d = dec_u64(n);
    let l = d.len() as int;
    lemma_dec_u64_digits(n);
    assert(s.subrange(i, i + l)[0] == d[0]);
    assert(s[i] == d[0]);
    assert(is_digit(s[i]));
    assert(forall|t: int| i <= t < i + l ==> is_digit(#[trigger] s[t])) by {
        assert forall|t: int| i <= t < i + l implies is_digit(s[t]) by {
            assert(s.subrange(i, i + l)[t - i] == d[t - i]);
            assert(s.subrange(i, i + l)[t - i] == s[t]);
        }
    }
    lemma_run_end(s, i, i + l);
    if l > 1 {
        if n < 10 {
            assert(d.len() == 1);
            assert(false);
        }
        assert(d[0] != 0x30);
    }
    assert(l <= 20) by {
        lemma_pow10_20();
        lemma_dec_u64_len(n, 20);
    }
    lemma_dec_dval(n);
    assert(s.subrange(i, i + l) == d);
    assert(dval(s.subrange(i, i + l), 0) == n);
}

// --- booleans ---

/// The JSON text of a boolean.
pub open spec fn jbool(b: bool) -> Seq<u8> {
    if b {
        ascii_seq("true"@)
    } else {
        ascii_seq("false"@)
    }
}

/// Parses `true` or `false` at `i`.
pub open spec fn sp_bool(s: Seq<u8>, i: int) -> Option<(bool, int)> {
    if has_at(s, i, ascii_seq("true"@)) {
        Some((true, i + ascii_seq("true"@).len()))
    } else if has_at(s, i, ascii_seq("false"@)) {
        Some((false, i + ascii_seq("false"@).len()))
    } else {
        None
    }
}

/// Parsing inverts writing for booleans.
pub proof fn lemma_sp_bool_rt(s: Seq<u8>, i: int, b: bool)
    requires
        0 <= i,
        i + jbool(b).len() <= s.len(),
        s.subrange(i, i + jbool(b).len()) == jbool(b),
    ensures
        sp_bool(s, i) == Some((b, i + jbool(b).len())),
{
    reveal_strlit("true");
    reveal_strlit("false");
    if b {
        assert(has_at(s, i, ascii_seq("true"@)));
    } else {
        assert(has_at(s, i, ascii_seq("false"@)));
        if has_at(s, i, ascii_seq("true"@)) {
            assert(s.subrange(i, i + 4)[0] == ascii_seq("true"@)[0]);
            assert(s.subrange(i, i + 5)[0] == ascii_seq("false"@)[0]);
            assert(s[i] == 't' as u8 && s[i] == 'f' as u8);
            assert(false);
        }
    }
}

} // verus!

verus! {

/// Appends the canonical decimal text of `n`.
pub fn emit_u64(out: &mut Vec<u8>, n: u64)
    ensures
        final(out)@ == old(out)@ + dec_u64(n),
    decreases n,
{
    if n < 10 {
        out.push(0x30 + (n as u8));
        proof {
            assert(out@ =~= old(out)@ + dec_u64(n));
        }
    } else {
        emit_u64(out, n / 10);
        out.push(0x30 + ((n % 10) as u8));
        proof {
            assert(out@ =~= old(out)@ + dec_u64(n));
        }
    }
}

/// Prefixes a parsed string body with already-consumed bytes.
pub open spec fn lift_str(acc: Seq<u8>, o: Option<(Seq<u8>, int)>) -> Option<(Seq<u8>, int)> {
    match o {
        Some(rj) => Some((acc + rj.0, rj.1)),
        None => None,
    }
}

/// Parses a JSON string literal starting at `i`.
pub fn parse_jstr(s: &Vec<u8>, i: usize) -> (r: Result<(Vec<u8>, usize), LxeError>)
    ensures
        match r {
            Ok(vj) => sp_str(s@, i as int) == Some((vj.0@, vj.1 as int)) && i < vj.1 <= s@.len(),
            Err(e) => sp_str(s@, i as int) is None && e == LxeError::MetadataParseError,
        },
{
    let n = s.len();
    if i >= n || s[i] != 0x22 {
        return Err(LxeError::MetadataParseError);
    }
    let mut out: Vec<u8> = Vec::new();
    let mut p: usize = i + 1;
    loop
        invariant
            i + 1 <= p <= n,
            n == s@.len(),
            i < n,
            s@[i as int] == 0x22,
            sp_str_body(s@, i as int + 1) == lift_str(out@, sp_str_body(s@, p as int)),
        decreases n - p,
    {
        if p >= n {
            return Err(LxeError::MetadataParseError);
        }
        let c = s[p];
        if c == 0x22 {
            proof {
                assert(sp_str_body(s@, p as int) == Some((Seq::<u8>::empty(), p as int + 1)));
                assert(out@ + Seq::<u8>::empty() =~= out@);
            }
            return Ok((out, p + 1));
        } else if c == 0x5c {
            if p + 1 >= n {
                return Err(LxeError::MetadataParseError);
            }
            let c2 = s[p + 1];
            if c2 == 0x22 || c2 == 0x5c {
                proof {
                    if sp_str_body(s@, p as int + 2) is Some {
                        let rj = sp_str_body(s@, p as int + 2)->Some_0;
                        assert(out@ + (seq![s@[p as int + 1]] + rj.0) =~= out@.push(c2) + rj.0);
                    }
                }
                out.push(c2);
                p = p + 2;
            } else if c2 == 0x75 {
                if n - p < 6 || s[p + 2] != 0x30 || s[p + 3] != 0x30 {
                    return Err(LxeError::MetadataParseError);
                }
                let c4 = s[p + 4];
                let c5 = s[p + 5];
                let v4 = if 0x30 <= c4 && c4 <= 0x39 {
                    c4 - 0x30
                } else if 0x61 <= c4 && c4 <= 0x66 {
                    c4 - 0x57
                } else if 0x41 <= c4 && c4 <= 0x46 {
                    c4 - 0x37
                } else {
                    return Err(LxeError::MetadataParseError);
                };
                let v5 = if 0x30 <= c5 && c5 <= 0x39 {
                    c5 - 0x30
                } else if 0x61 <= c5 && c5 <= 0x66 {
                    c5 - 0x57
                } else if 0x41 <= c5 && c5 <= 0x46 {
                    c5 - 0x37
                } else {
                    return Err(LxeError::MetadataParseError);
                };
                let x = v4 * 16 + v5;
                proof {
                    assert(x == (hex_val(s@[p as int + 4]) * 16 + hex_val(s@[p as int + 5])) as u8);
                    if sp_str_body(s@, p as int + 6) is Some {
                        let rj = sp_str_body(s@, p as int + 6)->Some_0;
                        assert(out@ + (seq![(hex_val(s@[p as int + 4]) * 16 + hex_val(
                            s@[p as int + 5],
                        )) as u8] + rj.0) =~= out@.push(x) + rj.0);
                    }
                }
                out.push(x);
                p = p + 6;
            } else {
                return Err(LxeError::MetadataParseError);
            }
        } else {
            proof {
                if sp_str_body(s@, p as int + 1) is Some {
                    let rj = sp_str_body(s@, p as int + 1)->Some_0;
                    assert(out@ + (seq![s@[p as int]] + rj.0) =~= out@.push(c) + rj.0);
                }
            }
            out.push(c);
            p = p + 1;
        }
    }
}

pub proof fn lemma_pow10_mono(a: nat, b: nat)
    requires
        a <= b,
    ensures
        pow10(a) <= pow10(b),
    decreases b,
{
    if a < b {
        lemma_pow10_mono(a, (b - 1) as nat);
        lemma_pow10_pos((b - 1) as nat);
    }
}

/// Parses an unsigned decimal number starting at `i`.
pub fn parse_ju64(s: &Vec<u8>, i: usize) -> (r: Result<(u64, usize), LxeError>)
    ensures
        match r {
            Ok(vj) => sp_u64(s@, i as int) == Some((vj.0, vj.1 as int)) && i < vj.1 <= s@.len(),
            Err(e) => sp_u64(s@, i as int) is None && e == LxeError::MetadataParseError,
        },
{
    let n = s.len();
    if i >= n || s[i] < 0x30 || s[i] > 0x39 {
        return Err(LxeError::MetadataParseError);
    }
    let mut e: usize = i;
    while e < n && 0x30 <= s[e] && s[e] <= 0x39
        invariant
            i <= e <= n,
            n == s@.len(),
            forall|t: int| i <= t < e ==> is_digit(#[trigger] s@[t]),
        decreases n - e,
    {
        e = e + 1;
    }
    proof {
        lemma_run_end(s@, i as int, e as int);
    }
    if e - i > 1 && s[i] == 0x30 {
        return Err(LxeError::MetadataParseError);
    }
    if e - i > 20 {
        return Err(LxeError::MetadataParseError);
    }
    let mut acc: u128 = 0;
    let mut p: usize = i;
    while p < e
        invariant
            i <= p <= e <= n,
            n == s@.len(),
            e - i <= 20,
            forall|t: int| i <= t < e ==> is_digit(#[trigger] s@[t]),
            acc as int == dval(s@.subrange(i as int, p as int), 0),
            (acc as int) < pow10((p - i) as nat),
        decreases e - p,
    {
        let d = s[p] - 0x30;
        proof {
            let pre = s@.subrange(i as int, p as int);
            assert(s@.subrange(i as int, p as int + 1) =~= pre.push(s@[p as int]));
            lemma_dval_push(pre, s@[p as int], 0);
            lemma_pow10_mono((p - i + 1) as nat, 20);
            lemma_pow10_20();
            let a0 = acc as int;
            let d0 = d as int;
            let pk = pow10((p - i) as nat);
            let pk1 = pow10((p - i + 1) as nat);
            assert(pk1 == 10 * pk);
            assert(a0 * 10 + d0 < pk1) by (nonlinear_arith)
                requires
                    a0 < pk,
                    d0 < 10,
                    pk1 == 10 * pk,
            ;
        }
        acc = acc * 10 + (d as u128);
        p = p + 1;
    }
    if acc > 0xffffffffffffffff {
        return Err(LxeError::MetadataParseError);
    }
    Ok((acc as u64, e))
}

/// Parses `true` or `false` starting at `i`.
pub fn parse_jbool(s: &Vec<u8>, i: usize) -> (r: Result<(bool, usize), LxeError>)
    ensures
        match r {
            Ok(vj) => sp_bool(s@, i as int) == Some((vj.0, vj.1 as int)) && i < vj.1 <= s@.len(),
            Err(e) => sp_bool(s@, i as int) is None && e == LxeError::MetadataParseError,
        },
{
    let n = s.len();
    proof {
        reveal_strlit("true");
        reveal_strlit("false");
        assert(vstd::string::is_ascii("true"));
        assert(vstd::string::is_ascii("false"));
    }
    if match_lit(s, i, "true") {
        proof {
            assert(ascii_seq("true"@).len() == 4);
        }
        Ok((true, i + 4))
    } else if match_lit(s, i, "false") {
        proof {
            assert(ascii_seq("false"@).len() == 5);
        }
        Ok((false, i + 5))
    } else {
        Err(LxeError::MetadataParseError)
    }
}

} // verus!

verus! {

// --- arrays of strings ---

/// The comma-joined items of a JSON array of strings.
pub open spec fn jarr_items(v: Seq<Seq<u8>>) -> Seq<u8>
    decreases v.len(),
{
    if v.len() == 0 {
        Seq::empty()
    } else if v.len() == 1 {
        jstr(v[0])
    } else {
        jstr(v[0]) + seq![0x2cu8] + jarr_items(v.drop_first())
    }
}

/// A JSON array of strings.
pub open spec fn jarr(v: Seq<Seq<u8>>) -> Seq<u8> {
    seq![0x5bu8] + jarr_items(v) + seq![0x5du8]
}

/// Parses the items of a string array after the opening bracket; at least one.
pub open spec fn sp_arr_items(s: Seq<u8>, i: int) -> Option<(Seq<Seq<u8>>, int)>
    decreases s.len() - i,
{
    match sp_str(s, i) {
        None => None,
        Some((v, j)) => {
            if i <= j && j < s.len() && s[j] == 0x2c {
                match sp_arr_items(s, j + 1) {
                    Some((rest, k)) => Some((seq![v] + rest, k)),
                    None => None,
                }
            } else if j < s.len() && s[j] == 0x5d {
                Some((seq![v], j + 1))
            } else {
                None
            }
        },
    }
}

/// Parses a JSON array of strings at `i`.
pub open spec fn sp_arr(s: Seq<u8>, i: int) -> Option<(Seq<Seq<u8>>, int)> {
    if 0 <= i && i < s.len() && s[i] == 0x5b {
        if i + 1 < s.len() && s[i + 1] == 0x5d {
            Some((Seq::empty(), i + 2))
        } else {
            sp_arr_items(s, i + 1)
        }
    } else {
        None
    }
}

pub proof fn lemma_jarr_items_push(v: Seq<Seq<u8>>, x: Seq<u8>)
    ensures
        v.len() == 0 ==> jarr_items(v.push(x)) == jstr(x),
        v.len() > 0 ==> jarr_items(v.push(x)) == jarr_items(v) + seq![0x2cu8] + jstr(x),
    decreases v.len(),
{
    if v.len() == 0 {
        assert(v.push(x)[0] == x);
        assert(jarr_items(v.push(x)) == jstr(v.push(x)[0]));
    } else if v.len() == 1 {
        assert(v.push(x)[0] == v[0]);
        assert(v.push(x).drop_first() =~= v.drop_first().push(x));
        assert(v.drop_first().len() == 0);
        lemma_jarr_items_push(v.drop_first(), x);
        assert(jarr_items(v.push(x)) =~= jarr_items(v) + seq![0x2cu8] + jstr(x));
    } else {
        assert(v.push(x)[0] == v[0]);
        assert(v.push(x).drop_first() =~= v.drop_first().push(x));
        lemma_jarr_items_push(v.drop_first(), x);
        assert(jarr_items(v.push(x)) =~= jarr_items(v) + seq![0x2cu8] + jstr(x));
    }
}

/// Appends the JSON array text for a vector of byte strings.
pub fn emit_jarr(out: &mut Vec<u8>, v: &Vec<Vec<u8>>)
    ensures
        final(out)@ == old(out)@ + jarr(v.deep_view()),
{
    out.push(0x5b);
    let ghost base = out@;
    let mut i: usize = 0;
    while i < v.len()
        invariant
            i <= v@.len(),
            out@ == base + jarr_items(v.deep_view().subrange(0, i as int)),
        decreases v@.len() - i,
    {
        if i > 0 {
            out.push(0x2c);
        }
        emit_jstr(out, &v[i]);
        proof {
            let dv = v.deep_view();
            assert(dv[i as int] == v@[i as int].deep_view());
            assert(v@[i as int].deep_view() =~= v@[i as int]@);
            assert(dv.subrange(0, i as int + 1) =~= dv.subrange(0, i as int).push(dv[i as int]));
            lemma_jarr_items_push(dv.subrange(0, i as int), dv[i as int]);
            if i == 0 {
                assert(out@ =~= base + jarr_items(dv.subrange(0, i as int + 1)));
            } else {
                assert(out@ =~= base + (jarr_items(dv.subrange(0, i as int)) + seq![0x2cu8] + jstr(
                    dv[i as int],
                )));
                assert(out@ =~= base + jarr_items(dv.subrange(0, i as int + 1)));
            }
        }
        i = i + 1;
    }
    out.push(0x5d);
    proof {
        assert(v.deep_view().subrange(0, v.deep_view().len() as int) =~= v.deep_view());
        assert(out@ =~= old(out)@ + jarr(v.deep_view()));
    }
}

/// Parsing inverts writing for the items of a non-empty string array.
pub proof fn lemma_sp_arr_items_rt(s: Seq<u8>, i: int, v: Seq<Seq<u8>>)
    requires
        0 <= i,
        v.len() >= 1,
        i + jarr_items(v).len() + 1 <= s.len(),
        s.subrange(i, i + jarr_items(v).len() + 1) == jarr_items(v) + seq![0x5du8],
    ensures
        sp_arr_items(s, i) == Some((v, i + jarr_items(v).len() + 1)),
    decreases v.len(),
{
    if v.len() == 1 {
        assert(jarr_items(v) == jstr(v[0]));
        lemma_split_at(s, i, jstr(v[0]), seq![0x5du8]);
        lemma_sp_str_rt(s, i, v[0]);
        let j = i + jstr(v[0]).len();
        assert(s.subrange(j, j + 1)[0] == seq![0x5du8][0]);
        assert(s[j] == 0x5d);
        assert(s[j] != 0x2c);
        assert(seq![v[0]] =~= v);
    } else {
        let tl = v.drop_first();
        let rest = seq![0x2cu8] + (jarr_items(tl) + seq![0x5du8]);
        assert(jarr_items(v) + seq![0x5du8] =~= jstr(v[0]) + rest);
        lemma_split_at(s, i, jstr(v[0]), rest);
        lemma_sp_str_rt(s, i, v[0]);
        let j = i + jstr(v[0]).len();
        lemma_split_at(s, j, seq![0x2cu8], jarr_items(tl) + seq![0x5du8]);
        assert(s.subrange(j, j + 1)[0] == seq![0x2cu8][0]);
        assert(s[j] == 0x2c);
        lemma_sp_arr_items_rt(s, j + 1, tl);
        assert(sp_arr_items(s, i) == Some((seq![v[0]] + tl, i + jarr_items(v).len() + 1)));
        assert(seq![v[0]] + tl =~= v);
    }
}

/// Parsing inverts writing for string arrays.
pub proof fn lemma_sp_arr_rt(s: Seq<u8>, i: int, v: Seq<Seq<u8>>)
    requires
        0 <= i,
        i + jarr(v).len() <= s.len(),
        s.subrange(i, i + jarr(v).len()) == jarr(v),
    ensures
        sp_arr(s, i) == Some((v, i + jarr(v).len())),
{
    let l = jarr(v).len() as int;
    assert(s.subrange(i, i + l)[0] == jarr(v)[0]);
    assert(s[i] == 0x5b);
    if v.len() == 0 {
        assert(jarr(v) =~= seq![0x5bu8, 0x5du8]);
        assert(s.subrange(i, i + l)[1] == jarr(v)[1]);
        assert(s[i + 1] == 0x5d);
        assert(Seq::<Seq<u8>>::empty() =~= v);
    } else {
        assert(jarr(v) =~= seq![0x5bu8] + (jarr_items(v) + seq![0x5du8]));
        lemma_split_at(s, i, seq![0x5bu8], jarr_items(v) + seq![0x5du8]);
        lemma_sp_arr_items_rt(s, i + 1, v);
        assert(jarr_items(v)[0] == jstr(v[0])[0]) by {
            if v.len() == 1 {
            } else {
                assert(jarr_items(v) == jstr(v[0]) + seq![0x2cu8] + jarr_items(v.drop_first()));
                assert(jstr(v[0]).len() >= 1);
            }
        }
        assert(jstr(v[0])[0] == 0x22);
        assert(s.subrange(i + 1, i + 1 + jarr_items(v).len() + 1)[0] == jarr_items(v)[0]);
        assert(s[i + 1] == 0x22);
        assert(s[i + 1] != 0x5d);
    }
}

/// Parses a JSON array of strings starting at `i`.
pub fn parse_jarr(s: &Vec<u8>, i: usize) -> (r: Result<(Vec<Vec<u8>>, usize), LxeError>)
    ensures
        match r {
            Ok(vj) => sp_arr(s@, i as int) == Some((vj.0.deep_view(), vj.1 as int)) && i < vj.1
                <= s@.len(),
            Err(e) => sp_arr(s@, i as int) is None && e == LxeError::MetadataParseError,
        },
{
    let n = s.len();
    if i >= n || s[i] != 0x5b {
        return Err(LxeError::MetadataParseError);
    }
    if i + 1 < n && s[i + 1] == 0x5d {
        let items: Vec<Vec<u8>> = Vec::new();
        proof {
            assert(items.deep_view() =~= Seq::<Seq<u8>>::empty());
        }
        return Ok((items, i + 2));
    }
    let mut items: Vec<Vec<u8>> = Vec::new();
    let mut p: usize = i + 1;
    loop
        invariant
            i + 1 <= p <= n,
            n == s@.len(),
            i < n,
            s@[i as int] == 0x5b,
            !(i + 1 < n && s@[i as int + 1] == 0x5d),
            sp_arr_items(s@, i as int + 1) == lift_arr(items.deep_view(), sp_arr_items(s@, p as int)),
        decreases n - p,
    {
        let (item, j) = match parse_jstr(s, p) {
            Ok(x) => x,
            Err(e) => {
                return Err(e);
            },
        };
        if j < n && s[j] == 0x2c {
            proof {
                lemma_lift_arr_step(s@, i as int + 1, p as int, items.deep_view(), item@, j as int);
                lemma_deep_push(&items, item);
            }
            items.push(item);
            p = j + 1;
        } else if j < n && s[j] == 0x5d {
            proof {
                assert(sp_arr_items(s@, p as int) == Some((seq![item@], j as int + 1)));
                lemma_deep_push(&items, item);
                assert(items.deep_view() + seq![item@] =~= items.deep_view().push(item@));
            }
            items.push(item);
            return Ok((items, j + 1));
        } else {
            return Err(LxeError::MetadataParseError);
        }
    }
}

/// Prefixes parsed array items with already-consumed ones.
pub open spec fn lift_arr(
    acc: Seq<Seq<u8>>,
    o: Option<(Seq<Seq<u8>>, int)>,
) -> Option<(Seq<Seq<u8>>, int)> {
    match o {
        Some(rj) => Some((acc + rj.0, rj.1)),
        None => None,
    }
}

proof fn lemma_lift_arr_step(s: Seq<u8>, i0: int, p: int, acc: Seq<Seq<u8>>, item: Seq<u8>, j: int)
    requires
        sp_str(s, p) == Some((item, j)),
        p <= j,
        j < s.len(),
        s[j] == 0x2c,
        sp_arr_items(s, i0) == lift_arr(acc, sp_arr_items(s, p)),
    ensures
        sp_arr_items(s, i0) == lift_arr(acc.push(item), sp_arr_items(s, j + 1)),
{
    if sp_arr_items(s, j + 1) is Some {
        let rk = sp_arr_items(s, j + 1)->Some_0;
        assert(sp_arr_items(s, p) == Some((seq![item] + rk.0, rk.1)));
        assert(acc + (seq![item] + rk.0) =~= acc.push(item) + rk.0);
    } else {
        assert(sp_arr_items(s, p) is None);
    }
}

proof fn lemma_deep_push(v: &Vec<Vec<u8>>, x: Vec<u8>)
    ensures
        forall|w: Vec<Vec<u8>>| w@ == v@.push(x) ==> w.deep_view() =~= v.deep_view().push(x@),
{
    assert forall|w: Vec<Vec<u8>>| w@ == v@.push(x) implies w.deep_view() =~= v.deep_view().push(
        x@,
    ) by {
        assert(forall|t: int| 0 <= t < w@.len() ==> w.deep_view()[t] == #[trigger] w@[t]@);
        assert(forall|t: int| 0 <= t < v@.len() ==> v.deep_view()[t] == #[trigger] v@[t]@);
        assert(forall|t: int| 0 <= t < v@.len() ==> w@[t] == #[trigger] v@[t]);
    }
}

} // verus!

verus! {

// --- skipping unknown member values ---

/// Skips one JSON value at `i`, to bounded nesting depth `d`: strings,
/// numbers, `true`/`false`/`null`, arrays and objects.
pub open spec fn sp_skip(s: Seq<u8>, i: int, d: nat) -> Option<int>
    decreases d, s.len() - i, 0int,
{
    if i < 0 || i >= s.len() {
        None
    } else if s[i] == 0x22 {
        match sp_str(s, i) {
            Some(vj) => Some(vj.1),
            None => None,
        }
    } else if is_digit(s[i]) {
        match sp_u64(s, i) {
            Some(vj) => Some(vj.1),
            None => None,
        }
    } else if has_at(s, i, ascii_seq("true"@)) {
        Some(i + ascii_seq("true"@).len())
    } else if has_at(s, i, ascii_seq("false"@)) {
        Some(i + ascii_seq("false"@).len())
    } else if has_at(s, i, ascii_seq("null"@)) {
        Some(i + ascii_seq("null"@).len())
    } else if s[i] == 0x5b {
        if d == 0 {
            None
        } else if i + 1 < s.len() && s[i + 1] == 0x5d {
            Some(i + 2)
        } else {
            sp_skip_list(s, i + 1, (d - 1) as nat)
        }
    } else if s[i] == 0x7b {
        if d == 0 {
            None
        } else if i + 1 < s.len() && s[i + 1] == 0x7d {
            Some(i + 2)
        } else {
            sp_skip_members(s, i + 1, (d - 1) as nat)
        }
    } else {
        None
    }
}

/// Skips comma-separated values up to a closing bracket.
pub open spec fn sp_skip_list(s: Seq<u8>, i: int, d: nat) -> Option<int>
    decreases d, s.len() - i, 1int,
{
    match sp_skip(s, i, d) {
        None => None,
        Some(j) => {
            if i <= j && j < s.len() && s[j] == 0x2c {
                sp_skip_list(s, j + 1, d)
            } else if j < s.len() && s[j] == 0x5d {
                Some(j + 1)
            } else {
                None
            }
        },
    }
}

/// Skips comma-separated `"key":value` members up to a closing brace.
pub open spec fn sp_skip_members(s: Seq<u8>, i: int, d: nat) -> Option<int>
    decreases d, s.len() - i, 1int,
{
    match sp_str(s, i) {
        None => None,
        Some(kj) => {
            if i <= kj.1 && kj.1 < s.len() && s[kj.1] == 0x3a {
                match sp_skip(s, kj.1 + 1, d) {
                    None => None,
                    Some(j) => {
                        if i <= j && j < s.len() && s[j] == 0x2c {
                            sp_skip_members(s, j + 1, d)
                        } else if j < s.len() && s[j] == 0x7d {
                            Some(j + 1)
                        } else {
                            None
                        }
                    },
                }
            } else {
                None
            }
        },
    }
}

/// Skips one JSON value starting at `i`, to nesting depth `d`.
pub fn skip_value(s: &Vec<u8>, i: usize, d: u32) -> (r: Result<usize, LxeError>)
    ensures
        match r {
            Ok(j) => sp_skip(s@, i as int, d as nat) == Some(j as int) && i <= j <= s@.len(),
            Err(e) => sp_skip(s@, i as int, d as nat) is None && e == LxeError::MetadataParseError,
        },
    decreases d, s@.len() - i, 0int,
{
    let n = s.len();
    if i >= n {
        return Err(LxeError::MetadataParseError);
    }
    let c = s[i];
    proof {
        reveal_strlit("true");
        reveal_strlit("false");
        reveal_strlit("null");
        assert(vstd::string::is_ascii("true") && vstd::string::is_ascii("false")
            && vstd::string::is_ascii("null"));
    }
    if c == 0x22 {
        match parse_jstr(s, i) {
            Ok(vj) => Ok(vj.1),
            Err(e) => Err(e),
        }
    } else if 0x30 <= c && c <= 0x39 {
        match parse_ju64(s, i) {
            Ok(vj) => Ok(vj.1),
            Err(e) => Err(e),
        }
    } else if match_lit(s, i, "true") {
        proof {
            assert(ascii_seq("true"@).len() == 4);
        }
        Ok(i + 4)
    } else if match_lit(s, i, "false") {
        proof {
            assert(ascii_seq("false"@).len() == 5);
        }
        Ok(i + 5)
    } else if match_lit(s, i, "null") {
        proof {
            assert(ascii_seq("null"@).len() == 4);
        }
        Ok(i + 4)
    } else if c == 0x5b {
        if d == 0 {
            return Err(LxeError::MetadataParseError);
        }
        if i + 1 < n && s[i + 1] == 0x5d {
            return Ok(i + 2);
        }
        skip_list(s, i + 1, d - 1)
    } else if c == 0x7b {
        if d == 0 {
            return Err(LxeError::MetadataParseError);
        }
        if i + 1 < n && s[i + 1] == 0x7d {
            return Ok(i + 2);
        }
        skip_members(s, i + 1, d - 1)
    } else {
        Err(LxeError::MetadataParseError)
    }
}

fn skip_list(s: &Vec<u8>, i: usize, d: u32) -> (r: Result<usize, LxeError>)
    ensures
        match r {
            Ok(j) => sp_skip_list(s@, i as int, d as nat) == Some(j as int) && i <= j <= s@.len(),
            Err(e) => sp_skip_list(s@, i as int, d as nat) is None && e
                == LxeError::MetadataParseError,
        },
    decreases d, s@.len() - i, 1int,
{
    let n = s.len();
    let j = match skip_value(s, i, d) {
        Ok(j) => j,
        Err(e) => {
            return Err(e);
        },
    };
    if j < n && s[j] == 0x2c {
        skip_list(s, j + 1, d)
    } else if j < n && s[j] == 0x5d {
        Ok(j + 1)
    } else {
        Err(LxeError::MetadataParseError)
    }
}

fn skip_members(s: &Vec<u8>, i: usize, d: u32) -> (r: Result<usize, LxeError>)
    ensures
        match r {
            Ok(j) => sp_skip_members(s@, i as int, d as nat) == Some(j as int) && i <= j
                <= s@.len(),
            Err(e) => sp_skip_members(s@, i as int, d as nat) is None && e
                == LxeError::MetadataParseError,
        },
    decreases d, s@.len() - i, 1int,
{
    let n = s.len();
    let (_k, kj) = match parse_jstr(s, i) {
        Ok(x) => x,
        Err(e) => {
            return Err(e);
        },
    };
    if !(kj < n && s[kj] == 0x3a) {
        return Err(LxeError::MetadataParseError);
    }
    let j = match skip_value(s, kj + 1, d) {
        Ok(j) => j,
        Err(e) => {
            return Err(e);
        },
    };
    if j < n && s[j] == 0x2c {
        skip_members(s, j + 1, d)
    } else if j < n && s[j] == 0x7d {
        Ok(j + 1)
    } else {
        Err(LxeError::MetadataParseError)
    }
}

} // verus!

verus! {

/// Bytes that need no escaping inside a JSON string: no quote, no backslash,
/// no control byte.
pub open spec fn plain(s: Seq<u8>) -> bool {
    forall|i: int| 0 <= i < s.len() ==> #[trigger] s[i] != 0x22 && s[i] != 0x5c && s[i] >= 0x20
}

/// Escaping leaves a plain byte string unchanged.
pub proof fn lemma_esc_plain(s: Seq<u8>)
    requires
        plain(s),
    ensures
        esc(s) == s,
    decreases s.len(),
{
    if s.len() > 0 {
        assert(s[0] != 0x22 && s[0] != 0x5c && s[0] >= 0x20);
        assert(esc_byte(s[0]) == seq![s[0]]);
        assert(plain(s.drop_first())) by {
            assert(forall|i: int|
                0 <= i < s.drop_first().len() ==> #[trigger] s.drop_first()[i] == s[i + 1]);
        }
        lemma_esc_plain(s.drop_first());
        assert(esc(s) =~= s);
    } else {
        assert(esc(s) =~= s);
    }
}

/// Compares a parsed key against an ASCII literal.
pub fn key_is(k: &Vec<u8>, lit: &str) -> (r: bool)
    requires
        vstd::string::is_ascii(lit),
    ensures
        r == (k@ == ascii_seq(lit@)),
{
    proof {
        vstd::string::is_ascii_spec_bytes(lit);
    }
    let b = lit.as_bytes();
    if k.len() != b.len() {
        return false;
    }
    let mut j: usize = 0;
    while j < b.len()
        invariant
            j <= b@.len(),
            k@.len() == b@.len(),
            b@ == ascii_seq(lit@),
            forall|t: int| 0 <= t < j ==> k@[t] == b@[t],
        decreases b@.len() - j,
    {
        if k[j] != b[j] {
            return false;
        }
        j = j + 1;
    }
    proof {
        assert(k@ =~= b@);
    }
    true
}

} // verus!

verus! {

/// Decimal text is never empty.
pub proof fn lemma_dec_u64_len_pos(n: u64)
    ensures
        dec_u64(n).len() >= 1,
    decreases n,
{
    if n >= 10 {
        lemma_dec_u64_len_pos((n / 10) as u64);
    }
}

} // verus!
