use vstd::prelude::*;

verus! {

/// The least multiple of `align` that is at least `value`.
pub open spec fn spec_align_up(value: int, align: int) -> int
    recommends
        align > 0,
{
    if value % align == 0 {
        value
    } else {
        value + align - value % align
    }
}

/// Rounds `value` up to the next multiple of `align`.
pub fn align_up(value: u64, align: u64) -> (r: u64)
    requires
        align > 0,
        value % align == 0 || value + align <= u64::MAX,
    ensures
        r == spec_align_up(value as int, align as int),
        r % align == 0,
        value <= r,
        r < value + align,
{
    proof {
        lemma_align_up(value as int, align as int);
    }
    if value % align == 0 {
        value
    } else {
        value + align - value % align
    }
}

/// `spec_align_up` is the least multiple of `align` not below `value`.
pub proof fn lemma_align_up(value: int, align: int)
    requires
        align > 0,
        value >= 0,
    ensures
        spec_align_up(value, align) % align == 0,
        value <= spec_align_up(value, align) < value + align,
{
    vstd::arithmetic::div_mod::lemma_fundamental_div_mod(value, align);
    let q = value / align;
    let r = value % align;
    if r != 0 {
        vstd::arithmetic::div_mod::lemma_mod_multiples_basic(q + 1, align);
        assert(value + align - r == (q + 1) * align) by (nonlinear_arith)
            requires
                value == align * q + r,
        ;
    }
}

/// Sets the first `count` bytes of `dest` to `val`.
pub fn memset(dest: &mut [u8], val: u8, count: usize)
    requires
        count <= old(dest)@.len(),
    ensures
        final(dest)@.len() == old(dest)@.len(),
        forall|i: int|
            0 <= i < final(dest)@.len() ==> #[trigger] final(dest)@[i] == if i < count {
                val
            } else {
                old(dest)@[i]
            },
{
    let mut i: usize = 0;
    while i < count
        invariant
            i <= count <= dest@.len(),
            dest@.len() == old(dest)@.len(),
            forall|j: int|
                0 <= j < dest@.len() ==> #[trigger] dest@[j] == if j < i {
                    val
                } else {
                    old(dest)@[j]
                },
        decreases count - i,
    {
        dest[i] = val;
        i = i + 1;
    }
}

/// Copies the first `n` bytes of `src` to the start of `dst`.
pub fn memcpy(dst: &mut [u8], src: &[u8], n: usize)
    requires
        n <= old(dst)@.len(),
        n <= src@.len(),
    ensures
        final(dst)@ == src@.subrange(0, n as int) + old(dst)@.subrange(n as int, old(dst)@.len() as int),
{
    let mut i: usize = 0;
    while i < n
        invariant
            i <= n <= dst@.len(),
            n <= src@.len(),
            dst@.len() == old(dst)@.len(),
            forall|j: int|
                0 <= j < dst@.len() ==> #[trigger] dst@[j] == if j < i {
                    src@[j]
                } else {
                    old(dst)@[j]
                },
        decreases n - i,
    {
        dst[i] = src[i];
        i = i + 1;
    }
    assert(dst@ =~= src@.subrange(0, n as int) + old(dst)@.subrange(n as int, old(dst)@.len() as int));
}

/// Index of the first zero byte of `s` at or after `i`, or the length of `s`.
pub open spec fn nul_from(s: Seq<u8>, i: int) -> int
    decreases s.len() - i,
{
    if i < 0 || i >= s.len() {
        s.len() as int
    } else if s[i] == 0 {
        i
    } else {
        nul_from(s, i + 1)
    }
}

/// Length of the NUL-terminated string at the start of `s`.
pub open spec fn c_strlen(s: Seq<u8>) -> int {
    nul_from(s, 0)
}

/// `s` holds a NUL terminator.
pub open spec fn is_c_str(s: Seq<u8>) -> bool {
    c_strlen(s) < s.len()
}

/// The terminator search from `i` stops within `[i, s.len()]`, at a zero
/// byte when it stops inside `s`, and passes only nonzero bytes; from 0 this
/// says that `c_strlen(s)` is a length of `s` and ends the string there.
pub proof fn lemma_nul_from(s: Seq<u8>, i: int)
    requires
        0 <= i <= s.len(),
    ensures
        i <= nul_from(s, i) <= s.len(),
        nul_from(s, i) < s.len() ==> s[nul_from(s, i)] == 0,
        forall|j: int| i <= j < nul_from(s, i) ==> #[trigger] s[j] != 0,
    decreases s.len() - i,
{
    if i < s.len() && s[i] != 0 {
        lemma_nul_from(s, i + 1);
    }
}

/// Copies the NUL-terminated string at the start of `src`, terminator
/// included, to the start of `dst`.
pub fn strcpy(dst: &mut [u8], src: &[u8])
    requires
        is_c_str(src@),
        c_strlen(src@) < old(dst)@.len(),
    ensures
        0 <= c_strlen(src@) < src@.len(),
        final(dst)@ == src@.subrange(0, c_strlen(src@) + 1) + old(dst)@.subrange(
            c_strlen(src@) + 1,
            old(dst)@.len() as int,
        ),
{
    proof {
        lemma_nul_from(src@, 0);
    }
    let mut i: usize = 0;
    while src[i] != 0
        invariant
            0 <= i <= c_strlen(src@),
            c_strlen(src@) < src@.len(),
            c_strlen(src@) < dst@.len(),
            src@[c_strlen(src@)] == 0,
            forall|j: int| 0 <= j < c_strlen(src@) ==> #[trigger] src@[j] != 0,
            dst@.len() == old(dst)@.len(),
            forall|j: int|
                0 <= j < dst@.len() ==> #[trigger] dst@[j] == if j < i {
                    src@[j]
                } else {
                    old(dst)@[j]
                },
        decreases c_strlen(src@) - i,
    {
        dst[i] = src[i];
        i = i + 1;
    }
    dst[i] = 0;
    assert(dst@ =~= src@.subrange(0, c_strlen(src@) + 1) + old(dst)@.subrange(
        c_strlen(src@) + 1,
        old(dst)@.len() as int,
    ));
}

/// The first index at or after `i` where `a` ends or differs from `b`.
pub open spec fn mismatch_from(a: Seq<u8>, b: Seq<u8>, i: int) -> int
    decreases a.len() - i,
{
    if i < 0 || i >= a.len() || i >= b.len() || a[i] == 0 || a[i] != b[i] {
        i
    } else {
        mismatch_from(a, b, i + 1)
    }
}

/// The sign of the first difference of two NUL-terminated strings, compared
/// byte by byte as unsigned values.
pub open spec fn c_str_order(a: Seq<u8>, b: Seq<u8>) -> i32 {
    let k = mismatch_from(a, b, 0);
    if a[k] < b[k] {
        -1i32
    } else if a[k] == b[k] {
        0i32
    } else {
        1i32
    }
}

proof fn lemma_mismatch_ge(a: Seq<u8>, b: Seq<u8>, i: int)
    requires
        0 <= i,
    ensures
        i <= mismatch_from(a, b, i),
    decreases a.len() - i,
{
    if !(i >= a.len() || i >= b.len() || a[i] == 0 || a[i] != b[i]) {
        lemma_mismatch_ge(a, b, i + 1);
    }
}

proof fn lemma_mismatch_from(a: Seq<u8>, b: Seq<u8>, i: int)
    requires
        0 <= i,
        i <= c_strlen(a),
        i <= c_strlen(b),
        is_c_str(a),
        is_c_str(b),
        forall|j: int| 0 <= j < i ==> #[trigger] a[j] == b[j],
    ensures
        i <= mismatch_from(a, b, i) <= c_strlen(a),
        mismatch_from(a, b, i) <= c_strlen(b),
        forall|j: int| 0 <= j < mismatch_from(a, b, i) ==> #[trigger] a[j] == b[j],
    decreases a.len() - i,
{
    lemma_nul_from(a, 0);
    lemma_nul_from(b, 0);
    if i < c_strlen(a) && i < c_strlen(b) {
        assert(a[i] != 0);
        assert(b[i] != 0);
        if a[i] == b[i] {
            lemma_mismatch_from(a, b, i + 1);
        }
    } else if i == c_strlen(a) {
        assert(a[i] == 0);
    } else {
        assert(b[i] == 0);
        assert(a[i] != 0);
    }
}

/// Index of the first byte where `s1` ends or differs from `s2`.
fn first_mismatch(s1: &[u8], s2: &[u8]) -> (k: usize)
    requires
        is_c_str(s1@),
        is_c_str(s2@),
    ensures
        k == mismatch_from(s1@, s2@, 0),
        k < s1@.len(),
        k < s2@.len(),
{
    proof {
        lemma_nul_from(s1@, 0);
        lemma_nul_from(s2@, 0);
        lemma_mismatch_from(s1@, s2@, 0);
    }
    let mut i: usize = 0;
    while s1[i] != 0 && s1[i] == s2[i]
        invariant
            0 <= i <= mismatch_from(s1@, s2@, 0),
            mismatch_from(s1@, s2@, 0) <= c_strlen(s1@) < s1@.len(),
            mismatch_from(s1@, s2@, 0) <= c_strlen(s2@) < s2@.len(),
            mismatch_from(s1@, s2@, i as int) == mismatch_from(s1@, s2@, 0),
        decreases mismatch_from(s1@, s2@, 0) - i,
    {
        proof {
            lemma_mismatch_ge(s1@, s2@, i + 1);
        }
        i = i + 1;
    }
    i
}

/// Compares two NUL-terminated strings: -1, 0 or 1 as the first differing
/// byte of `s1` is below, equal to or above that of `s2`.
pub fn strcmp(s1: &[u8], s2: &[u8]) -> (r: i32)
    requires
        is_c_str(s1@),
        is_c_str(s2@),
    ensures
        r == c_str_order(s1@, s2@),
{
    let i: usize = first_mismatch(s1, s2);
    let a: u8 = s1[i];
    let b: u8 = s2[i];
    if a < b {
        -1
    } else if a == b {
        0
    } else {
        1
    }
}

/// The walk of `mismatch_from` stops where one string ends, at a terminator
/// of `a`, or at a differing byte.
proof fn lemma_mismatch_stops(a: Seq<u8>, b: Seq<u8>, i: int)
    requires
        0 <= i,
    ensures
        ({
            let m = mismatch_from(a, b, i);
            m >= a.len() || m >= b.len() || a[m] == 0 || a[m] != b[m]
        }),
    decreases a.len() - i,
{
    if !(i >= a.len() || i >= b.len() || a[i] == 0 || a[i] != b[i]) {
        lemma_mismatch_stops(a, b, i + 1);
    }
}

/// How two C strings compare: 0 exactly when they are the same string (same
/// length, same bytes); otherwise, at the first index where they differ
/// (within both strings, terminators included), -1 when `a`'s byte is the
/// smaller and 1 when it is the larger. Swapping the strings flips the sign.
pub proof fn lemma_strcmp_order(a: Seq<u8>, b: Seq<u8>)
    requires
        is_c_str(a),
        is_c_str(b),
    ensures
        c_str_order(a, b) == 0 <==> (c_strlen(a) == c_strlen(b) && forall|j: int|
            0 <= j < c_strlen(a) ==> #[trigger] a[j] == b[j]),
        forall|k: int|
            0 <= k <= c_strlen(a) && k <= c_strlen(b) && #[trigger] a[k] != b[k] && (forall|j: int|
                0 <= j < k ==> a[j] == b[j]) ==> (c_str_order(a, b) == -1 <==> a[k] < b[k]) && (
                c_str_order(a, b) == 1 <==> a[k] > b[k]),
        c_str_order(a, b) == -1 || c_str_order(a, b) == 0 || c_str_order(a, b) == 1,
        c_str_order(a, b) == -c_str_order(b, a),
{
    lemma_nul_from(a, 0);
    lemma_nul_from(b, 0);
    lemma_mismatch_from(a, b, 0);
    lemma_mismatch_stops(a, b, 0);
    lemma_mismatch_from(b, a, 0);
    lemma_mismatch_stops(b, a, 0);
    let la = c_strlen(a);
    let lb = c_strlen(b);
    let m = mismatch_from(a, b, 0);
    let m2 = mismatch_from(b, a, 0);
    // The walk stops at the first difference, or at the common end.
    assert(a[m] == b[m] ==> m == la && m == lb) by {
        if a[m] == b[m] {
            assert(a[m] == 0);
            if m < la {
                assert(a[m] != 0);
            }
            if m < lb {
                assert(b[m] != 0);
            }
        }
    }
    assert forall|k: int|
        0 <= k <= la && k <= lb && #[trigger] a[k] != b[k] && (forall|j: int| 0 <= j < k ==> a[j] == b[j])
        implies k == m by {
        if m < k {
            assert(a[m] == b[m]);
        } else if k < m {
            assert(a[k] == b[k]);
        }
    }
    if la == lb && forall|j: int| 0 <= j < la ==> #[trigger] a[j] == b[j] {
        if a[m] != b[m] {
            assert(m < la ==> a[m] == b[m]);
            assert(a[la] == 0 && b[lb] == 0);
        }
    }
    // The same for the strings swapped.
    assert(b[m2] == a[m2] ==> m2 == la && m2 == lb) by {
        if b[m2] == a[m2] {
            assert(b[m2] == 0);
            if m2 < la {
                assert(a[m2] != 0);
            }
            if m2 < lb {
                assert(b[m2] != 0);
            }
        }
    }
    assert(m == m2) by {
        if m < m2 {
            assert(b[m] == a[m]);
        } else if m2 < m {
            assert(a[m2] == b[m2]);
        }
    }
}

/// A copied string compares equal to its source, and every string compares
/// equal to itself.
pub proof fn lemma_strcpy_then_equal(dst: Seq<u8>, src: Seq<u8>)
    requires
        is_c_str(src),
        c_strlen(src) < dst.len(),
    ensures
        is_c_str(
            src.subrange(0, c_strlen(src) + 1) + dst.subrange(c_strlen(src) + 1, dst.len() as int),
        ),
        c_str_order(
            src.subrange(0, c_strlen(src) + 1) + dst.subrange(c_strlen(src) + 1, dst.len() as int),
            src,
        ) == 0,
        c_str_order(src, src) == 0,
{
    lemma_nul_from(src, 0);
    let d = src.subrange(0, c_strlen(src) + 1) + dst.subrange(c_strlen(src) + 1, dst.len() as int);
    let k = c_strlen(src);
    assert forall|j: int| 0 <= j <= k implies #[trigger] d[j] == src[j] by {}
    lemma_nul_from(d, 0);
    assert(c_strlen(d) == k) by {
        if c_strlen(d) < k {
            assert(d[c_strlen(d)] == 0);
            assert(src[c_strlen(d)] != 0);
        } else if c_strlen(d) > k {
            assert(d[k] == src[k]);
            assert(d[k] != 0);
        }
    }
    lemma_mismatch_from(d, src, 0);
    lemma_mismatch_from(src, src, 0);
}

/// Saved registers of the interrupted context.
#[derive(Clone, Copy, Debug)]
pub struct TrapFrame {
    pub ra: u64,
    pub gp: u64,
    pub tp: u64,
    pub t0: u64,
    pub t1: u64,
    pub t2: u64,
    pub t3: u64,
    pub t4: u64,
    pub t5: u64,
    pub t6: u64,
    pub a0: u64,
    pub a1: u64,
    pub a2: u64,
    pub a3: u64,
    pub a4: u64,
    pub a5: u64,
    pub a6: u64,
    pub a7: u64,
    pub s0: u64,
    pub s1: u64,
    pub s2: u64,
    pub s3: u64,
    pub s4: u64,
    pub s5: u64,
    pub s6: u64,
    pub s7: u64,
    pub s8: u64,
    pub s9: u64,
    pub s10: u64,
    pub s11: u64,
    pub sp: u64,
}

} // verus!
