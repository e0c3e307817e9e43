//! Debian-style version ordering, the cache engine's version-comparison
//! capability.
//!
//! A version string is `epoch:upstream-revision`, with the epoch and the
//! revision optional. Each of the three parts is compared as a *fragment*:
//! alternating runs of non-digits and digits, where non-digits compare by a
//! modified byte order (letters before the other punctuation, and `~` before
//! everything, even the end of the part) and digit runs compare as numbers.
//! The comparison works on bytes, as the engine's does.

use core::cmp::Ordering;
use vstd::prelude::*;

verus! {

/// Whether a byte is an ASCII digit.
pub open spec fn is_digit(c: u8) -> bool {
    48 <= c <= 57
}

/// Whether a byte is an ASCII letter.
pub open spec fn is_alpha(c: u8) -> bool {
    (65 <= c <= 90) || (97 <= c <= 122)
}

/// The sort key of a byte in the non-digit phase: `~` before the end marker
/// (whose key is 0), letters before everything else.
pub open spec fn order_of(c: u8) -> int {
    if c == 126 {
        -1
    } else if is_digit(c) {
        0
    } else if is_alpha(c) {
        c as int
    } else {
        c as int + 256
    }
}

/// The sort key of a part's first byte, or 0 at the end of the part.
pub open spec fn head_order(s: Seq<u8>) -> int {
    if s.len() == 0 {
        0
    } else {
        order_of(s[0])
    }
}

/// The number of leading `0` bytes.
pub open spec fn zeros(s: Seq<u8>) -> nat
    decreases s.len(),
{
    if s.len() > 0 && s[0] == 48 {
        1 + zeros(s.skip(1))
    } else {
        0
    }
}

/// The length of the leading digit run.
pub open spec fn digits_len(s: Seq<u8>) -> nat
    decreases s.len(),
{
    if s.len() > 0 && is_digit(s[0]) {
        1 + digits_len(s.skip(1))
    } else {
        0
    }
}

/// Byte-wise comparison of two digit runs of equal length.
pub open spec fn lex_cmp(a: Seq<u8>, b: Seq<u8>) -> Ordering
    decreases a.len(),
{
    if a.len() == 0 || b.len() == 0 {
        Ordering::Equal
    } else if a[0] < b[0] {
        Ordering::Less
    } else if a[0] > b[0] {
        Ordering::Greater
    } else {
        lex_cmp(a.skip(1), b.skip(1))
    }
}

/// Leading zeros never outnumber the bytes.
pub proof fn lemma_zeros_le(s: Seq<u8>)
    ensures
        zeros(s) <= s.len(),
    decreases s.len(),
{
    if s.len() > 0 && s[0] == 48 {
        lemma_zeros_le(s.skip(1));
    }
}

/// The leading digit run never outnumbers the bytes.
pub proof fn lemma_digits_le(s: Seq<u8>)
    ensures
        digits_len(s) <= s.len(),
    decreases s.len(),
{
    if s.len() > 0 && is_digit(s[0]) {
        lemma_digits_le(s.skip(1));
    }
}

/// Compare two version fragments: non-digit runs by the modified byte order,
/// digit runs as numbers (leading zeros stripped; longer run of significant
/// digits wins; equal lengths compare byte-wise).
pub open spec fn frag_cmp(a: Seq<u8>, b: Seq<u8>) -> Ordering
    decreases a.len() + b.len(),
{
    if a.len() == 0 && b.len() == 0 {
        Ordering::Equal
    } else if (a.len() > 0 && !is_digit(a[0])) || (b.len() > 0 && !is_digit(b[0])) {
        let oa = head_order(a);
        let ob = head_order(b);
        if oa < ob {
            Ordering::Less
        } else if oa > ob {
            Ordering::Greater
        } else {
            frag_cmp(a.skip(1), b.skip(1))
        }
    } else {
        let a1 = a.skip(zeros(a) as int);
        let b1 = b.skip(zeros(b) as int);
        let da = digits_len(a1);
        let db = digits_len(b1);
        proof {
            lemma_zeros_le(a);
            lemma_zeros_le(b);
            lemma_digits_le(a1);
            lemma_digits_le(b1);
            if a.len() > 0 && zeros(a) == 0 {
                assert(a1 == a.skip(0));
                assert(a1 =~= a);
            }
            if b.len() > 0 && zeros(b) == 0 {
                assert(b1 == b.skip(0));
                assert(b1 =~= b);
            }
        }
        if da < db {
            Ordering::Less
        } else if da > db {
            Ordering::Greater
        } else {
            let l = lex_cmp(a1.take(da as int), b1.take(db as int));
            if l != Ordering::Equal {
                l
            } else {
                frag_cmp(a1.skip(da as int), b1.skip(db as int))
            }
        }
    }
}

/// The index of the first `:` byte, or the length when there is none.
pub open spec fn idx_colon(s: Seq<u8>) -> int
    decreases s.len(),
{
    if s.len() == 0 {
        0
    } else if s[0] == 58 {
        0
    } else {
        1 + idx_colon(s.skip(1))
    }
}

/// The index of the last `-` byte, or -1 when there is none.
pub open spec fn idx_last_dash(s: Seq<u8>) -> int
    decreases s.len(),
{
    if s.len() == 0 {
        -1
    } else if s.last() == 45 {
        s.len() - 1
    } else {
        idx_last_dash(s.drop_last())
    }
}

/// A colon is never found past the end.
pub proof fn lemma_idx_colon_le(s: Seq<u8>)
    ensures
        0 <= idx_colon(s) <= s.len(),
    decreases s.len(),
{
    if s.len() > 0 && s[0] != 58 {
        lemma_idx_colon_le(s.skip(1));
    }
}

/// A last dash is never found past the end.
pub proof fn lemma_idx_last_dash_le(s: Seq<u8>)
    ensures
        -1 <= idx_last_dash(s) < s.len(),
    decreases s.len(),
{
    if s.len() > 0 && s.last() != 45 {
        lemma_idx_last_dash_le(s.drop_last());
    }
}

/// The epoch part: what precedes the first `:`, or empty when there is none.
pub open spec fn epoch_part(s: Seq<u8>) -> Seq<u8> {
    if idx_colon(s) < s.len() {
        s.take(idx_colon(s))
    } else {
        Seq::empty()
    }
}

/// What follows the first `:`, or the whole string when there is none.
pub open spec fn rest_part(s: Seq<u8>) -> Seq<u8> {
    if idx_colon(s) < s.len() {
        s.skip(idx_colon(s) + 1)
    } else {
        s
    }
}

/// The upstream part of an epoch-free string: what precedes the last `-`,
/// or the whole string when there is none.
pub open spec fn upstream_part(s: Seq<u8>) -> Seq<u8> {
    if idx_last_dash(s) >= 0 {
        s.take(idx_last_dash(s))
    } else {
        s
    }
}

/// The revision part of an epoch-free string: what follows the last `-`, or
/// empty when there is none.
pub open spec fn revision_part(s: Seq<u8>) -> Seq<u8> {
    if idx_last_dash(s) >= 0 {
        s.skip(idx_last_dash(s) + 1)
    } else {
        Seq::empty()
    }
}

/// Compare two version strings: by epoch, then upstream part, then revision.
pub open spec fn version_cmp(a: Seq<u8>, b: Seq<u8>) -> Ordering {
    let e = frag_cmp(epoch_part(a), epoch_part(b));
    if e != Ordering::Equal {
        e
    } else {
        let ra = rest_part(a);
        let rb = rest_part(b);
        let u = frag_cmp(upstream_part(ra), upstream_part(rb));
        if u != Ordering::Equal {
            u
        } else {
            frag_cmp(revision_part(ra), revision_part(rb))
        }
    }
}

/// Count the leading `0` bytes.
fn zeros_bytes(a: &[u8]) -> (r: usize)
    ensures
        r == zeros(a@),
        r <= a@.len(),
    decreases a@.len(),
{
    if a.len() > 0 && a[0] == 48 {
        let sub = &a[1..a.len()];
        proof {
            assert(sub@ =~= a@.skip(1));
        }
        1 + zeros_bytes(sub)
    } else {
        0
    }
}

/// Measure the leading digit run.
fn digits_bytes(a: &[u8]) -> (r: usize)
    ensures
        r == digits_len(a@),
        r <= a@.len(),
    decreases a@.len(),
{
    if a.len() > 0 && 48 <= a[0] && a[0] <= 57 {
        let sub = &a[1..a.len()];
        proof {
            assert(sub@ =~= a@.skip(1));
        }
        1 + digits_bytes(sub)
    } else {
        0
    }
}

/// Compare two digit runs of equal length, byte-wise.
fn lex_cmp_bytes(a: &[u8], b: &[u8]) -> (r: Ordering)
    ensures
        r == lex_cmp(a@, b@),
    decreases a@.len(),
{
    if a.len() == 0 || b.len() == 0 {
        Ordering::Equal
    } else if a[0] < b[0] {
        Ordering::Less
    } else if a[0] > b[0] {
        Ordering::Greater
    } else {
        let sa = &a[1..a.len()];
        let sb = &b[1..b.len()];
        proof {
            assert(sa@ =~= a@.skip(1));
            assert(sb@ =~= b@.skip(1));
        }
        lex_cmp_bytes(sa, sb)
    }
}

/// The sort key of a part's first byte, or 0 at its end.
fn head_order_bytes(a: &[u8]) -> (r: i32)
    ensures
        r as int == head_order(a@),
{
    if a.len() == 0 {
        0
    } else {
        let c = a[0];
        if c == 126 {
            -1
        } else if 48 <= c && c <= 57 {
            0
        } else if (65 <= c && c <= 90) || (97 <= c && c <= 122) {
            c as i32
        } else {
            c as i32 + 256
        }
    }
}

/// Compare two version fragments.
fn frag_cmp_bytes(a: &[u8], b: &[u8]) -> (r: Ordering)
    ensures
        r == frag_cmp(a@, b@),
    decreases a@.len() + b@.len(),
{
    let a_nondigit = a.len() > 0 && !(48 <= a[0] && a[0] <= 57);
    let b_nondigit = b.len() > 0 && !(48 <= b[0] && b[0] <= 57);
    if a.len() == 0 && b.len() == 0 {
        Ordering::Equal
    } else if a_nondigit || b_nondigit {
        let oa = head_order_bytes(a);
        let ob = head_order_bytes(b);
        if oa < ob {
            Ordering::Less
        } else if oa > ob {
            Ordering::Greater
        } else {
            let sa = &a[1..a.len()];
            let sb = &b[1..b.len()];
            proof {
                assert(sa@ =~= a@.skip(1));
                assert(sb@ =~= b@.skip(1));
            }
            frag_cmp_bytes(sa, sb)
        }
    } else {
        let za = zeros_bytes(a);
        let zb = zeros_bytes(b);
        let a1 = &a[za..a.len()];
        let b1 = &b[zb..b.len()];
        proof {
            assert(a1@ =~= a@.skip(zeros(a@) as int));
            assert(b1@ =~= b@.skip(zeros(b@) as int));
        }
        let da = digits_bytes(a1);
        let db = digits_bytes(b1);
        if da < db {
            Ordering::Less
        } else if da > db {
            Ordering::Greater
        } else {
            let ra = &a1[0..da];
            let rb = &b1[0..db];
            proof {
                assert(ra@ =~= a1@.take(da as int));
                assert(rb@ =~= b1@.take(db as int));
            }
            let l = lex_cmp_bytes(ra, rb);
            match l {
                Ordering::Equal => {
                    let ta = &a1[da..a1.len()];
                    let tb = &b1[db..b1.len()];
                    proof {
                        assert(ta@ =~= a1@.skip(da as int));
                        assert(tb@ =~= b1@.skip(db as int));
                    }
                    frag_cmp_bytes(ta, tb)
                },
                _ => l,
            }
        }
    }
}

/// Find the first `:` byte, or the length when there is none.
fn find_colon(a: &[u8]) -> (r: usize)
    ensures
        r == idx_colon(a@),
        r <= a@.len(),
    decreases a@.len(),
{
    if a.len() == 0 {
        0
    } else if a[0] == 58 {
        0
    } else {
        let sub = &a[1..a.len()];
        proof {
            assert(sub@ =~= a@.skip(1));
        }
        1 + find_colon(sub)
    }
}

/// Find the last `-` byte, if any.
fn find_last_dash(a: &[u8]) -> (r: Option<usize>)
    ensures
        match r {
            Option::Some(i) => idx_last_dash(a@) == i as int,
            Option::None => idx_last_dash(a@) == -1,
        },
    decreases a@.len(),
{
    if a.len() == 0 {
        None
    } else if a[a.len() - 1] == 45 {
        Some(a.len() - 1)
    } else {
        let sub = &a[0..a.len() - 1];
        proof {
            assert(sub@ =~= a@.drop_last());
        }
        find_last_dash(sub)
    }
}

/// Compare two version strings held as bytes.
pub fn version_cmp_bytes(a: &[u8], b: &[u8]) -> (r: Ordering)
    ensures
        r == version_cmp(a@, b@),
{
    proof {
        lemma_idx_colon_le(a@);
        lemma_idx_colon_le(b@);
    }
    let ca = find_colon(a);
    let cb = find_colon(b);
    let (ea, ra): (&[u8], &[u8]) = if ca < a.len() {
        (&a[0..ca], &a[ca + 1..a.len()])
    } else {
        (&a[0..0], a)
    };
    let (eb, rb): (&[u8], &[u8]) = if cb < b.len() {
        (&b[0..cb], &b[cb + 1..b.len()])
    } else {
        (&b[0..0], b)
    };
    proof {
        assert(ea@ =~= epoch_part(a@));
        assert(eb@ =~= epoch_part(b@));
        assert(ra@ =~= rest_part(a@));
        assert(rb@ =~= rest_part(b@));
    }
    let e = frag_cmp_bytes(ea, eb);
    match e {
        Ordering::Equal => {
            proof {
                lemma_idx_last_dash_le(ra@);
                lemma_idx_last_dash_le(rb@);
            }
            let da = find_last_dash(ra);
            let db = find_last_dash(rb);
            let (ua, va): (&[u8], &[u8]) = match da {
                Some(i) => (&ra[0..i], &ra[i + 1..ra.len()]),
                None => (ra, &ra[0..0]),
            };
            let (ub, vb): (&[u8], &[u8]) = match db {
                Some(i) => (&rb[0..i], &rb[i + 1..rb.len()]),
                None => (rb, &rb[0..0]),
            };
            proof {
                assert(ua@ =~= upstream_part(ra@));
                assert(ub@ =~= upstream_part(rb@));
                assert(va@ =~= revision_part(ra@));
                assert(vb@ =~= revision_part(rb@));
            }
            let u = frag_cmp_bytes(ua, ub);
            match u {
                Ordering::Equal => frag_cmp_bytes(va, vb),
                _ => u,
            }
        },
        _ => e,
    }
}

/// The same ordering seen from the other side.
pub open spec fn flip(o: Ordering) -> Ordering {
    match o {
        Ordering::Less => Ordering::Greater,
        Ordering::Equal => Ordering::Equal,
        Ordering::Greater => Ordering::Less,
    }
}

/// A digit run compares equal to itself.
pub proof fn lemma_lex_cmp_refl(a: Seq<u8>)
    ensures
        lex_cmp(a, a) == Ordering::Equal,
    decreases a.len(),
{
    if a.len() > 0 {
        lemma_lex_cmp_refl(a.skip(1));
    }
}

/// Swapping the sides of a digit-run comparison flips its outcome.
pub proof fn lemma_lex_cmp_flip(a: Seq<u8>, b: Seq<u8>)
    ensures
        lex_cmp(b, a) == flip(lex_cmp(a, b)),
    decreases a.len(),
{
    if a.len() > 0 && b.len() > 0 && a[0] == b[0] {
        lemma_lex_cmp_flip(a.skip(1), b.skip(1));
    }
}

/// A fragment compares equal to itself.
pub proof fn lemma_frag_cmp_refl(a: Seq<u8>)
    ensures
        frag_cmp(a, a) == Ordering::Equal,
    decreases a.len(),
{
    if a.len() == 0 {
    } else if !is_digit(a[0]) {
        lemma_frag_cmp_refl(a.skip(1));
    } else {
        let a1 = a.skip(zeros(a) as int);
        let da = digits_len(a1);
        lemma_zeros_le(a);
        lemma_digits_le(a1);
        lemma_lex_cmp_refl(a1.take(da as int));
        if zeros(a) == 0 {
            assert(a1 == a.skip(0));
            assert(a1 =~= a);
        }
        lemma_frag_cmp_refl(a1.skip(da as int));
    }
}

/// Swapping the sides of a fragment comparison flips its outcome — the
/// antisymmetry behind "if `x` sorts before `y`, `y` sorts after `x`".
pub proof fn lemma_frag_cmp_flip(a: Seq<u8>, b: Seq<u8>)
    ensures
        frag_cmp(b, a) == flip(frag_cmp(a, b)),
    decreases a.len() + b.len(),
{
    if a.len() == 0 && b.len() == 0 {
    } else if (a.len() > 0 && !is_digit(a[0])) || (b.len() > 0 && !is_digit(b[0])) {
        if head_order(a) == head_order(b) {
            lemma_frag_cmp_flip(a.skip(1), b.skip(1));
        }
    } else {
        let a1 = a.skip(zeros(a) as int);
        let b1 = b.skip(zeros(b) as int);
        let da = digits_len(a1);
        let db = digits_len(b1);
        lemma_zeros_le(a);
        lemma_zeros_le(b);
        lemma_digits_le(a1);
        lemma_digits_le(b1);
        if a.len() > 0 && zeros(a) == 0 {
            assert(a1 == a.skip(0));
            assert(a1 =~= a);
        }
        if b.len() > 0 && zeros(b) == 0 {
            assert(b1 == b.skip(0));
            assert(b1 =~= b);
        }
        if da == db {
            lemma_lex_cmp_flip(a1.take(da as int), b1.take(db as int));
            if lex_cmp(a1.take(da as int), b1.take(db as int)) == Ordering::Equal {
                lemma_frag_cmp_flip(a1.skip(da as int), b1.skip(db as int));
            }
        }
    }
}

/// A version compares equal to itself.
pub proof fn lemma_version_cmp_refl(a: Seq<u8>)
    ensures
        version_cmp(a, a) == Ordering::Equal,
{
    lemma_frag_cmp_refl(epoch_part(a));
    lemma_frag_cmp_refl(upstream_part(rest_part(a)));
    lemma_frag_cmp_refl(revision_part(rest_part(a)));
}

/// Swapping the sides of a version comparison flips its outcome: whenever
/// `a` sorts before `b`, `b` sorts after `a`, and ties are mutual.
pub proof fn lemma_version_cmp_flip(a: Seq<u8>, b: Seq<u8>)
    ensures
        version_cmp(b, a) == flip(version_cmp(a, b)),
{
    lemma_frag_cmp_flip(epoch_part(a), epoch_part(b));
    lemma_frag_cmp_flip(upstream_part(rest_part(a)), upstream_part(rest_part(b)));
    lemma_frag_cmp_flip(revision_part(rest_part(a)), revision_part(rest_part(b)));
}

} // verus!
