//! Project-detection helpers: naming conversions and value extraction used
//! when a configuration is scaffolded from an existing source tree.

use vstd::prelude::*;

verus! {

/// A word separator for title casing: hyphen, underscore, space or tab.
pub open spec fn is_sep(c: u8) -> bool {
    c == 0x2d || c == 0x5f || c == 0x20 || c == 0x09 || c == 0x0a || c == 0x0d
}

/// ASCII upper-casing of one byte.
pub open spec fn up(c: u8) -> u8 {
    if 0x61 <= c && c <= 0x7a {
        (c - 0x20) as u8
    } else {
        c
    }
}

/// ASCII lower-casing of one byte.
pub open spec fn low(c: u8) -> u8 {
    if 0x41 <= c && c <= 0x5a {
        (c + 0x20) as u8
    } else {
        c
    }
}

/// Title casing from position `i`: words separated by single spaces, each
/// word's first byte upper-cased. `fresh` says the next letter starts a
/// word; `emitted` whether a word was already written.
pub open spec fn title_from(s: Seq<u8>, i: int, fresh: bool, emitted: bool) -> Seq<u8>
    decreases s.len() - i,
{
    if i < 0 || i >= s.len() {
        Seq::empty()
    } else {
        let c = s[i];
        if is_sep(c) {
            title_from(s, i + 1, true, emitted)
        } else if fresh {
            (if emitted {
                seq![0x20u8]
            } else {
                Seq::empty()
            }) + seq![up(c)] + title_from(s, i + 1, false, true)
        } else {
            seq![c] + title_from(s, i + 1, false, true)
        }
    }
}

/// The title-cased form of a name: `my-cool-app` becomes `My Cool App`.
pub open spec fn title_case(s: Seq<u8>) -> Seq<u8> {
    title_from(s, 0, true, false)
}

/// Title-cases a name.
pub fn to_title_case(s: &Vec<u8>) -> (r: Vec<u8>)
    ensures
        r@ == title_case(s@),
{
    let n = s.len();
    let mut out: Vec<u8> = Vec::new();
    let mut i: usize = 0;
    let mut fresh = true;
    let mut emitted = false;
    while i < n
        invariant
            i <= n,
            n == s@.len(),
            title_case(s@) == out@ + title_from(s@, i as int, fresh, emitted),
        decreases n - i,
    {
        let ghost o0 = out@;
        let ghost f0 = fresh;
        let ghost e0 = emitted;
        let c = s[i];
        if c == 0x2d || c == 0x5f || c == 0x20 || c == 0x09 || c == 0x0a || c == 0x0d {
            fresh = true;
        } else if fresh {
            if emitted {
                out.push(0x20);
            }
            if 0x61 <= c && c <= 0x7a {
                out.push(c - 0x20);
            } else {
                out.push(c);
            }
            proof {
                let pre: Seq<u8> = if e0 {
                    seq![0x20u8]
                } else {
                    Seq::empty()
                };
                assert(out@ =~= o0 + (pre + seq![up(s@[i as int])]));
                assert(title_from(s@, i as int, true, e0) == pre + seq![up(s@[i as int])]
                    + title_from(s@, i as int + 1, false, true));
            }
            fresh = false;
            emitted = true;
        } else {
            out.push(c);
            emitted = true;
        }
        proof {
            assert(out@ + title_from(s@, i as int + 1, fresh, emitted) =~= o0 + title_from(
                s@,
                i as int,
                f0,
                e0,
            ));
        }
        i = i + 1;
    }
    proof {
        assert(out@ =~= out@ + title_from(s@, n as int, fresh, emitted));
    }
    out
}

/// The kebab form of a byte: whitespace and underscores become hyphens,
/// letters lower-case.
pub open spec fn keb(c: u8) -> u8 {
    if c == 0x20 || c == 0x09 || c == 0x0a || c == 0x0d || c == 0x5f {
        0x2d
    } else {
        low(c)
    }
}

/// Kebab-cases a name: `My App` becomes `my-app`.
pub fn to_kebab_case(s: &Vec<u8>) -> (r: Vec<u8>)
    ensures
        r@ == s@.map_values(|c: u8| keb(c)),
{
    let n = s.len();
    let mut out: Vec<u8> = Vec::new();
    let mut i: usize = 0;
    while i < n
        invariant
            i <= n,
            n == s@.len(),
            out@ == s@.subrange(0, i as int).map_values(|c: u8| keb(c)),
        decreases n - i,
    {
        let c = s[i];
        if c == 0x20 || c == 0x09 || c == 0x0a || c == 0x0d || c == 0x5f {
            out.push(0x2d);
        } else if 0x41 <= c && c <= 0x5a {
            out.push(c + 0x20);
        } else {
            out.push(c);
        }
        proof {
            assert(out@ =~= s@.subrange(0, i as int + 1).map_values(|c: u8| keb(c))) by {
                assert(s@.subrange(0, i as int + 1) =~= s@.subrange(0, i as int).push(
                    s@[i as int],
                ));
                assert(s@.subrange(0, i as int).push(s@[i as int]).map_values(|c: u8| keb(c))
                    =~= s@.subrange(0, i as int).map_values(|c: u8| keb(c)).push(keb(s@[i as int])));
            }
        }
        i = i + 1;
    }
    proof {
        assert(s@.subrange(0, n as int) =~= s@);
    }
    out
}

} // verus!

verus! {

/// The first position of byte `c` at or after `i`.
pub open spec fn first_pos(s: Seq<u8>, i: int, c: u8) -> Option<int>
    decreases s.len() - i,
{
    if i < 0 || i >= s.len() {
        None
    } else if s[i] == c {
        Some(i)
    } else {
        first_pos(s, i + 1, c)
    }
}

/// ASCII whitespace.
pub open spec fn is_ws(b: u8) -> bool {
    b == 0x20 || b == 0x09 || b == 0x0a || b == 0x0d
}

/// First non-whitespace position at or after `i`.
pub open spec fn trim_start_at(s: Seq<u8>, i: int) -> int
    decreases s.len() - i,
{
    if 0 <= i && i < s.len() && is_ws(s[i]) {
        trim_start_at(s, i + 1)
    } else {
        i
    }
}

/// One past the last non-whitespace position below `k`.
pub open spec fn trim_end_at(s: Seq<u8>, k: int) -> int
    decreases k,
{
    if 0 < k && k <= s.len() && is_ws(s[k - 1]) {
        trim_end_at(s, k - 1)
    } else {
        k
    }
}

/// `s` without leading and trailing ASCII whitespace.
pub open spec fn trimmed(s: Seq<u8>) -> Seq<u8> {
    let a = trim_start_at(s, 0);
    let b = trim_end_at(s, s.len() as int);
    if 0 <= a && a <= b && b <= s.len() {
        s.subrange(a, b)
    } else {
        Seq::empty()
    }
}

/// One past the last byte below `k` that is not a comma.
pub open spec fn strip_commas_at(s: Seq<u8>, k: int) -> int
    decreases k,
{
    if 0 < k && k <= s.len() && s[k - 1] == 0x2c {
        strip_commas_at(s, k - 1)
    } else {
        k
    }
}

/// The string value of a configuration-style assignment line: the text
/// after the first `=`, trimmed; a quoted value runs to its closing quote,
/// an unquoted one loses trailing commas and surrounding whitespace and must
/// be plain (no parentheses) and non-empty.
pub open spec fn string_value_spec(line: Seq<u8>) -> Option<Seq<u8>> {
    match first_pos(line, 0, 0x3d) {
        None => None,
        Some(k) => {
            if !(0 <= k && k < line.len()) {
                None
            } else {
                let v0 = trimmed(line.subrange(k + 1, line.len() as int));
                if v0.len() > 0 && (v0[0] == 0x22 || v0[0] == 0x27) {
                    match first_pos(v0, 1, v0[0]) {
                        None => None,
                        Some(e) => Some(v0.subrange(1, e)),
                    }
                } else if first_pos(v0, 0, 0x28) is None && first_pos(v0, 0, 0x29) is None {
                    let clean = trimmed(v0.subrange(0, strip_commas_at(v0, v0.len() as int)));
                    if clean.len() > 0 {
                        Some(clean)
                    } else {
                        None
                    }
                } else {
                    None
                }
            }
        },
    }
}

/// Finds the first occurrence of byte `c` at or after `start`.
fn first_byte_pos(s: &Vec<u8>, start: usize, c: u8) -> (r: Option<usize>)
    ensures
        match r {
            Some(p) => first_pos(s@, start as int, c) == Some(p as int) && start <= p < s@.len(),
            None => first_pos(s@, start as int, c) is None,
        },
{
    let n = s.len();
    let mut p = start;
    loop
        invariant
            start <= p,
            n == s@.len(),
            first_pos(s@, start as int, c) == first_pos(s@, p as int, c),
        decreases n - p,
    {
        if p >= n {
            return None;
        }
        if s[p] == c {
            return Some(p);
        }
        p = p + 1;
    }
}

proof fn lemma_trim_start_at(s: Seq<u8>, a: int)
    requires
        0 <= a <= s.len(),
        forall|t: int| 0 <= t < a ==> is_ws(#[trigger] s[t]),
        a == s.len() || !is_ws(s[a]),
    ensures
        trim_start_at(s, 0) == a,
{
    lemma_trim_start_step(s, 0, a);
}

proof fn lemma_trim_start_step(s: Seq<u8>, i: int, a: int)
    requires
        0 <= i <= a <= s.len(),
        forall|t: int| i <= t < a ==> is_ws(#[trigger] s[t]),
        a == s.len() || !is_ws(s[a]),
    ensures
        trim_start_at(s, i) == a,
    decreases a - i,
{
    if i < a {
        lemma_trim_start_step(s, i + 1, a);
    }
}

proof fn lemma_trim_end_step(s: Seq<u8>, k: int, b: int)
    requires
        0 <= b <= k <= s.len(),
        forall|t: int| b <= t < k ==> is_ws(#[trigger] s[t]),
        b == 0 || !is_ws(s[b - 1]),
    ensures
        trim_end_at(s, k) == b,
    decreases k - b,
{
    if b < k {
        lemma_trim_end_step(s, k - 1, b);
    }
}

proof fn lemma_strip_commas_step(s: Seq<u8>, k: int, b: int)
    requires
        0 <= b <= k <= s.len(),
        forall|t: int| b <= t < k ==> #[trigger] s[t] == 0x2c,
        b == 0 || s[b - 1] != 0x2c,
    ensures
        strip_commas_at(s, k) == b,
    decreases k - b,
{
    if b < k {
        lemma_strip_commas_step(s, k - 1, b);
    }
}

/// Trims ASCII whitespace from both ends.
fn trim_bytes(s: &Vec<u8>) -> (r: Vec<u8>)
    ensures
        r@ == trimmed(s@),
{
    let n = s.len();
    let mut a: usize = 0;
    while a < n && (s[a] == 0x20 || s[a] == 0x09 || s[a] == 0x0a || s[a] == 0x0d)
        invariant
            a <= n,
            n == s@.len(),
            forall|t: int| 0 <= t < a ==> is_ws(#[trigger] s@[t]),
        decreases n - a,
    {
        a = a + 1;
    }
    proof {
        lemma_trim_start_at(s@, a as int);
    }
    let mut b: usize = n;
    while b > 0 && (s[b - 1] == 0x20 || s[b - 1] == 0x09 || s[b - 1] == 0x0a || s[b - 1] == 0x0d)
        invariant
            b <= n,
            n == s@.len(),
            forall|t: int| b <= t < n ==> is_ws(#[trigger] s@[t]),
        decreases b,
    {
        b = b - 1;
    }
    proof {
        lemma_trim_end_step(s@, n as int, b as int);
    }
    if a <= b {
        crate::codec::copy_range(s, a, b)
    } else {
        let r: Vec<u8> = Vec::new();
        proof {
            assert(r@ =~= trimmed(s@));
        }
        r
    }
}

/// Extracts the string value of an assignment line, as when a source tree's
/// configuration is scanned for a name or version.
pub fn extract_string_value(line: &Vec<u8>) -> (r: Option<Vec<u8>>)
    ensures
        match r {
            Some(v) => string_value_spec(line@) == Some(v@),
            None => string_value_spec(line@) is None,
        },
{
    let n = line.len();
    let k = match first_byte_pos(line, 0, 0x3d) {
        Some(k) => k,
        None => {
            return None;
        },
    };
    let tail = crate::codec::copy_range(line, k + 1, n);
    let v0 = trim_bytes(&tail);
    proof {
        assert(tail@ =~= line@.subrange(k as int + 1, line@.len() as int));
    }
    let nv = v0.len();
    if nv > 0 && (v0[0] == 0x22 || v0[0] == 0x27) {
        match first_byte_pos(&v0, 1, v0[0]) {
            Some(e) => Some(crate::codec::copy_range(&v0, 1, e)),
            None => None,
        }
    } else {
        if first_byte_pos(&v0, 0, 0x28).is_some() || first_byte_pos(&v0, 0, 0x29).is_some() {
            return None;
        }
        let mut b: usize = nv;
        while b > 0 && v0[b - 1] == 0x2c
            invariant
                b <= nv,
                nv == v0@.len(),
                forall|t: int| b <= t < nv ==> #[trigger] v0@[t] == 0x2c,
            decreases b,
        {
            b = b - 1;
        }
        proof {
            lemma_strip_commas_step(v0@, nv as int, b as int);
        }
        let c1 = crate::codec::copy_range(&v0, 0, b);
        let clean = trim_bytes(&c1);
        proof {
            assert(c1@ =~= v0@.subrange(0, b as int));
        }
        if clean.len() > 0 {
            Some(clean)
        } else {
            None
        }
    }
}

} // verus!
