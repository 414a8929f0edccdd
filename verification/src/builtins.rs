//! The freestanding memory routines, over byte slices.
use vstd::prelude::*;
use crate::boot::dtb::{nul_from, lemma_nul_from_bounds};

verus! {

/// The bytes after `memmove(dest, src, n)` within one buffer. Where the
/// destination lies after the source the copy runs backwards over offsets
/// `n` down to 1.
pub open spec fn moved(old: Seq<u8>, dest: int, src: int, n: int) -> Seq<u8> {
    Seq::new(
        old.len(),
        |i: int|
            if dest <= src {
                if dest <= i < dest + n {
                    old[src + (i - dest)]
                } else {
                    old[i]
                }
            } else {
                if dest < i <= dest + n {
                    old[src + (i - dest)]
                } else {
                    old[i]
                }
            },
    )
}

/// Copies the first `n` bytes of `src` to the start of `dest`.
pub fn memcpy(dest: &mut [u8], src: &[u8], n: usize)
    requires
        n <= old(dest)@.len(),
        n <= src@.len(),
    ensures
        final(dest)@ == src@.subrange(0, n as int) + old(dest)@.subrange(n as int, old(dest)@.len() as int),
{
    let mut count = n;
    let mut i: usize = 0;
    while count > 0
        invariant
            i + count == n,
            n <= dest@.len(),
            n <= src@.len(),
            dest@.len() == old(dest)@.len(),
            forall|j: int| 0 <= j < i ==> dest@[j] == src@[j],
            forall|j: int| i <= j < dest@.len() ==> dest@[j] == old(dest)@[j],
        decreases count,
    {
        dest[i] = src[i];
        i = i + 1;
        count = count - 1;
    }
    assert(dest@ =~= src@.subrange(0, n as int) + old(dest)@.subrange(n as int, old(dest)@.len() as int));
}

/// Copies `n` bytes of `buf` from offset `src` to offset `dest`; the two
/// ranges may overlap.
pub fn memmove(buf: &mut [u8], dest: usize, src: usize, n: usize)
    requires
        dest <= src ==> dest + n <= old(buf)@.len() && src + n <= old(buf)@.len(),
        dest > src ==> dest + n < old(buf)@.len() && src + n < old(buf)@.len(),
    ensures
        final(buf)@ == moved(old(buf)@, dest as int, src as int, n as int),
        final(buf)@.len() == old(buf)@.len(),
        dest <= src ==> forall|k: int| 0 <= k < n ==> #[trigger] final(buf)@[dest + k] == old(buf)@[src + k],
        dest <= src ==> forall|i: int| 0 <= i < old(buf)@.len() && !(dest <= i < dest + n) ==> #[trigger] final(buf)@[i] == old(buf)@[i],
        dest > src ==> forall|k: int| 1 <= k <= n ==> #[trigger] final(buf)@[dest + k] == old(buf)@[src + k],
        dest > src ==> forall|i: int| 0 <= i < old(buf)@.len() && !(dest < i <= dest + n) ==> #[trigger] final(buf)@[i] == old(buf)@[i],
{
    let ghost orig = buf@;
    let _len = buf.len();
    let mut tmp = dest;
    let mut s = src;
    let mut count = n;
    if dest <= src {
        while count > 0
            invariant
                dest <= src,
                tmp == dest + (n - count),
                s == src + (n - count),
                count <= n,
                src + n <= buf@.len(),
                buf@.len() == orig.len(),
                forall|j: int| dest <= j < tmp ==> buf@[j] == orig[src + (j - dest)],
                forall|j: int| 0 <= j < buf@.len() && !(dest <= j < tmp) ==> buf@[j] == orig[j],
            decreases count,
        {
            buf[tmp] = buf[s];
            tmp = tmp + 1;
            s = s + 1;
            count = count - 1;
        }
    } else {
        tmp = tmp + count;
        s = s + count;
        while count > 0
            invariant
                dest > src,
                tmp == dest + count,
                s == src + count,
                count <= n,
                dest + n < buf@.len(),
                buf@.len() == orig.len(),
                forall|j: int| tmp < j <= dest + n ==> buf@[j] == orig[src + (j - dest)],
                forall|j: int| 0 <= j < buf@.len() && !(tmp < j <= dest + n) ==> buf@[j] == orig[j],
            decreases count,
        {
            buf[tmp] = buf[s];
            tmp = tmp - 1;
            s = s - 1;
            count = count - 1;
        }
    }
    assert(buf@ =~= moved(orig, dest as int, src as int, n as int));
    proof {
        lemma_moved_bytes(orig, dest as int, src as int, n as int);
    }
}

/// Sets the first `n` bytes of `s` to the low byte of `c`.
pub fn memset(s: &mut [u8], c: i32, n: usize)
    requires
        n <= old(s)@.len(),
    ensures
        final(s)@.len() == old(s)@.len(),
        forall|i: int| 0 <= i < n ==> final(s)@[i] == c as u8,
        forall|i: int| n <= i < old(s)@.len() ==> final(s)@[i] == old(s)@[i],
{
    let mut i: usize = 0;
    let mut count = n;
    while count > 0
        invariant
            i + count == n,
            n <= s@.len(),
            s@.len() == old(s)@.len(),
            forall|j: int| 0 <= j < i ==> s@[j] == c as u8,
            forall|j: int| i <= j < s@.len() ==> s@[j] == old(s)@[j],
        decreases count,
    {
        s[i] = c as u8;
        i = i + 1;
        count = count - 1;
    }
}

/// The difference of the first bytes of `s1` and `s2` when `n` is not
/// zero, and 0 otherwise. The comparison never moves past the first byte,
/// and it subtracts the bytes unsigned, so the first byte of `s1` is not
/// below that of `s2`.
pub fn memcmp(s1: &[u8], s2: &[u8], n: usize) -> (r: i32)
    requires
        n <= s1@.len(),
        n <= s2@.len(),
        n > 0 ==> s1@[0] >= s2@[0],
    ensures
        r == (if n == 0 { 0 } else { s1@[0] - s2@[0] }),
{
    let mut res: u8 = 0;
    let mut count = n;
    while count > 0
        invariant
            count <= n,
            n <= s1@.len(),
            n <= s2@.len(),
            n > 0 ==> s1@[0] >= s2@[0],
            count < n ==> res == s1@[0] - s2@[0],
            n == 0 ==> res == 0,
        ensures
            n > 0 ==> res == s1@[0] - s2@[0],
            n == 0 ==> res == 0,
        decreases count,
    {
        res = s1[0] - s2[0];
        if res != 0 {
            break;
        }
        count = count - 1;
    }
    widen(res)
}

fn widen(b: u8) -> (r: i32)
    ensures
        r == b,
{
    b as i32
}

/// Same as [`memcmp`].
pub fn bcmp(s1: &[u8], s2: &[u8], n: usize) -> (r: i32)
    requires
        n <= s1@.len(),
        n <= s2@.len(),
        n > 0 ==> s1@[0] >= s2@[0],
    ensures
        r == (if n == 0 { 0 } else { s1@[0] - s2@[0] }),
{
    memcmp(s1, s2, n)
}

/// The number of bytes before the first zero byte.
pub fn strlen(s: &[u8]) -> (r: usize)
    requires
        nul_from(s@, 0) < s@.len(),
    ensures
        r == nul_from(s@, 0),
        forall|i: int| 0 <= i < r ==> s@[i] != 0,
        s@[r as int] == 0,
{
    proof {
        lemma_nul_from_bounds(s@, 0);
    }
    let mut sc: usize = 0;
    while s[sc] != 0
        invariant
            sc <= nul_from(s@, 0),
            0 <= nul_from(s@, 0) <= s@.len(),
            nul_from(s@, sc as int) == nul_from(s@, 0),
            nul_from(s@, 0) < s@.len(),
        decreases s@.len() - sc,
    {
        proof {
            lemma_nul_from_bounds(s@, sc as int + 1);
        }
        sc = sc + 1;
    }
    sc
}

/// Moving towards the front (destination not after the source) moves all
/// `n` bytes, overlapping or not: byte `k` of the source lands at byte `k`
/// of the destination for every `k < n`, and every other byte keeps its
/// value. Moving towards the back copies the bytes at offsets 1 to `n`.
pub proof fn lemma_moved_bytes(old: Seq<u8>, dest: int, src: int, n: int)
    requires
        0 <= dest,
        0 <= src,
        0 <= n,
        dest <= src ==> src + n <= old.len(),
        dest > src ==> dest + n < old.len(),
    ensures
        moved(old, dest, src, n).len() == old.len(),
        dest <= src ==> forall|k: int| 0 <= k < n ==> #[trigger] moved(old, dest, src, n)[dest + k] == old[src + k],
        dest <= src ==> forall|i: int| 0 <= i < old.len() && !(dest <= i < dest + n) ==> #[trigger] moved(old, dest, src, n)[i] == old[i],
        dest > src ==> forall|k: int| 1 <= k <= n ==> #[trigger] moved(old, dest, src, n)[dest + k] == old[src + k],
        dest > src ==> forall|i: int| 0 <= i < old.len() && !(dest < i <= dest + n) ==> #[trigger] moved(old, dest, src, n)[i] == old[i],
{
}

} // verus!
