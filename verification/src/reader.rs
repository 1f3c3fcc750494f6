//! Bounds-checked little-endian primitive reads over an in-memory byte
//! buffer, and small byte-sequence utilities shared by the binary parsers.

use vstd::prelude::*;

verus! {

/// The little-endian `u16` formed by the two bytes at `off`.
pub open spec fn spec_le_u16(b: Seq<u8>, off: int) -> u16 {
    (b[off] as u16 + b[off + 1] as u16 * 0x100) as u16
}

/// The little-endian `u32` formed by the four bytes at `off`.
pub open spec fn spec_le_u32(b: Seq<u8>, off: int) -> u32 {
    (b[off] as u32 + b[off + 1] as u32 * 0x100 + b[off + 2] as u32 * 0x1_0000 + b[off
        + 3] as u32 * 0x100_0000) as u32
}

/// The little-endian `u64` formed by the eight bytes at `off`.
pub open spec fn spec_le_u64(b: Seq<u8>, off: int) -> u64 {
    (spec_le_u32(b, off) as u64 + spec_le_u32(b, off + 4) as u64 * 0x1_0000_0000) as u64
}

/// Reads the little-endian `u16` at byte offset `off`.
pub fn le_u16_at(b: &[u8], off: usize) -> (r: u16)
    requires
        off + 2 <= b@.len(),
    ensures
        r == spec_le_u16(b@, off as int),
{
    let lo = b[off] as u16;
    let hi = b[off + 1] as u16;
    lo + hi * 0x100
}

/// Reads the little-endian `u32` at byte offset `off`.
pub fn le_u32_at(b: &[u8], off: usize) -> (r: u32)
    requires
        off + 4 <= b@.len(),
    ensures
        r == spec_le_u32(b@, off as int),
{
    let b0 = b[off] as u32;
    let b1 = b[off + 1] as u32;
    let b2 = b[off + 2] as u32;
    let b3 = b[off + 3] as u32;
    b0 + b1 * 0x100 + b2 * 0x1_0000 + b3 * 0x100_0000
}

/// Reads the little-endian `u64` at byte offset `off`.
pub fn le_u64_at(b: &[u8], off: usize) -> (r: u64)
    requires
        off + 8 <= b@.len(),
    ensures
        r == spec_le_u64(b@, off as int),
{
    let blen = b.len();
    proof {
        assert(off + 8 <= blen);
    }
    let lo = le_u32_at(b, off) as u64;
    let hi = le_u32_at(b, off + 4) as u64;
    lo + hi * 0x1_0000_0000
}

/// Copies `len` bytes starting at `off` into an owned buffer.
pub fn read_bytes(b: &[u8], off: usize, len: usize) -> (r: Vec<u8>)
    requires
        off + len <= b@.len(),
    ensures
        r@ == b@.subrange(off as int, off + len),
{
    let n = b.len();
    let mut out: Vec<u8> = Vec::new();
    let mut i: usize = 0;
    while i < len
        invariant
            off + len <= n == b@.len(),
            i <= len,
            out@ == b@.subrange(off as int, off + i),
        decreases len - i,
    {
        out.push(b[off + i]);
        assert(out@ =~= b@.subrange(off as int, off + i + 1));
        i = i + 1;
    }
    out
}

/// Appends all of `s` to the end of `v`.
pub fn append_bytes(v: &mut Vec<u8>, s: &[u8])
    ensures
        final(v)@ == old(v)@ + s@,
{
    let mut i: usize = 0;
    while i < s.len()
        invariant
            i <= s@.len(),
            v@ == old(v)@ + s@.subrange(0, i as int),
        decreases s@.len() - i,
    {
        v.push(s[i]);
        assert(v@ =~= old(v)@ + s@.subrange(0, i + 1));
        i = i + 1;
    }
    assert(v@ =~= old(v)@ + s@);
}

/// Compares two byte sequences for equality.
pub fn bytes_eq(a: &[u8], b: &[u8]) -> (r: bool)
    ensures
        r == (a@ == b@),
{
    if a.len() != b.len() {
        assert(a@.len() != b@.len());
        return false;
    }
    let mut i: usize = 0;
    while i < a.len()
        invariant
            a@.len() == b@.len(),
            i <= a@.len(),
            forall|j: int| 0 <= j < i ==> a@[j] == b@[j],
        decreases a@.len() - i,
    {
        if a[i] != b[i] {
            return false;
        }
        i = i + 1;
    }
    assert(a@ =~= b@);
    true
}

/// True when `b` begins with `prefix`.
pub open spec fn spec_starts_with(b: Seq<u8>, prefix: Seq<u8>) -> bool {
    prefix.len() <= b.len() && b.subrange(0, prefix.len() as int) == prefix
}

/// Tests whether `b` begins with `prefix`.
pub fn starts_with(b: &[u8], prefix: &[u8]) -> (r: bool)
    ensures
        r == spec_starts_with(b@, prefix@),
{
    if prefix.len() > b.len() {
        return false;
    }
    let mut i: usize = 0;
    while i < prefix.len()
        invariant
            prefix@.len() <= b@.len(),
            i <= prefix@.len(),
            forall|j: int| 0 <= j < i ==> b@[j] == prefix@[j],
        decreases prefix@.len() - i,
    {
        if b[i] != prefix[i] {
            assert(b@.subrange(0, prefix@.len() as int)[i as int] != prefix@[i as int]);
            return false;
        }
        i = i + 1;
    }
    assert(b@.subrange(0, prefix@.len() as int) =~= prefix@);
    true
}

} // verus!

verus! {

/// The first index at or after `from` holding byte `x`, or the length when
/// there is none.
pub open spec fn spec_find_byte(b: Seq<u8>, from: int, x: u8) -> int
    decreases b.len() - from when 0 <= from <= b.len()
{
    if from >= b.len() {
        b.len() as int
    } else if b[from] == x {
        from
    } else {
        spec_find_byte(b, from + 1, x)
    }
}

/// Finds the first occurrence of byte `x` at or after `from`.
pub fn find_byte(b: &[u8], from: usize, x: u8) -> (r: usize)
    requires
        from <= b@.len(),
    ensures
        r == spec_find_byte(b@, from as int, x),
        from <= r <= b@.len(),
{
    let n = b.len();
    let mut i: usize = from;
    while i < n
        invariant
            from <= i <= n == b@.len(),
            spec_find_byte(b@, from as int, x) == spec_find_byte(b@, i as int, x),
        decreases n - i,
    {
        if b[i] == x {
            return i;
        }
        i = i + 1;
    }
    i
}

/// The first index at or after `from` where `pat` occurs, or the length
/// when it occurs nowhere.  The empty pattern occurs everywhere.
pub open spec fn spec_find_sub(b: Seq<u8>, pat: Seq<u8>, from: int) -> int
    decreases b.len() - from when 0 <= from <= b.len()
{
    if pat.len() == 0 {
        from
    } else if from + pat.len() > b.len() {
        b.len() as int
    } else if b.subrange(from, from + pat.len()) == pat {
        from
    } else {
        spec_find_sub(b, pat, from + 1)
    }
}

/// Tests whether `pat` occurs at position `i` of `b`.
pub fn match_at(b: &[u8], pat: &[u8], i: usize) -> (r: bool)
    requires
        i + pat@.len() <= b@.len(),
    ensures
        r == (b@.subrange(i as int, i + pat@.len()) == pat@),
{
    let m = pat.len();
    let blen = b.len();
    let mut j: usize = 0;
    while j < m
        invariant
            i + m <= blen == b@.len(),
            m == pat@.len(),
            j <= m,
            forall|k: int| 0 <= k < j ==> b@[i + k] == pat@[k],
        decreases m - j,
    {
        if b[i + j] != pat[j] {
            proof {
                assert(b@.subrange(i as int, i + m)[j as int] != pat@[j as int]);
            }
            return false;
        }
        j = j + 1;
    }
    assert(b@.subrange(i as int, i + m) =~= pat@);
    true
}

/// Finds the first occurrence of `pat` at or after `from`.
pub fn find_sub(b: &[u8], pat: &[u8], from: usize) -> (r: usize)
    requires
        from <= b@.len(),
    ensures
        r == spec_find_sub(b@, pat@, from as int),
        from <= r <= b@.len(),
{
    let n = b.len();
    let m = pat.len();
    if m == 0 {
        return from;
    }
    if m > n {
        return n;
    }
    let mut i: usize = from;
    while i <= n - m
        invariant
            from <= i <= n == b@.len(),
            0 < m <= n,
            m == pat@.len(),
            spec_find_sub(b@, pat@, from as int) == spec_find_sub(b@, pat@, i as int),
        decreases n - i,
    {
        if match_at(b, pat, i) {
            return i;
        }
        i = i + 1;
    }
    assert(spec_find_sub(b@, pat@, i as int) == n);
    n
}

/// ASCII letters lowered, all other bytes kept.
pub open spec fn spec_ascii_lower(b: Seq<u8>) -> Seq<u8> {
    b.map(
        |_i: int, c: u8|
            if 65 <= c <= 90 {
                (c + 32) as u8
            } else {
                c
            },
    )
}

/// Lowercases ASCII letters in a byte buffer.
pub fn ascii_lower(b: &[u8]) -> (r: Vec<u8>)
    ensures
        r@ == spec_ascii_lower(b@),
{
    let n = b.len();
    let mut out: Vec<u8> = Vec::new();
    let mut i: usize = 0;
    while i < n
        invariant
            n == b@.len(),
            i <= n,
            out@.len() == i,
            forall|j: int| 0 <= j < i ==> out@[j] == spec_ascii_lower(b@)[j],
        decreases n - i,
    {
        let c = b[i];
        if 65 <= c && c <= 90 {
            out.push(c + 32);
        } else {
            out.push(c);
        }
        i = i + 1;
    }
    assert(out@ =~= spec_ascii_lower(b@));
    out
}

/// True for the blank characters trimmed off header values.
pub open spec fn spec_is_blank(c: u8) -> bool {
    c == 32 || c == 9 || c == 13 || c == 10
}

/// The buffer without leading blanks.
pub open spec fn spec_trim_start(b: Seq<u8>) -> Seq<u8>
    decreases b.len(),
{
    if b.len() > 0 && spec_is_blank(b[0]) {
        spec_trim_start(b.drop_first())
    } else {
        b
    }
}

/// The buffer without trailing blanks.
pub open spec fn spec_trim_end(b: Seq<u8>) -> Seq<u8>
    decreases b.len(),
{
    if b.len() > 0 && spec_is_blank(b[b.len() - 1]) {
        spec_trim_end(b.drop_last())
    } else {
        b
    }
}

/// The buffer without leading and trailing blanks.
pub open spec fn spec_trim(b: Seq<u8>) -> Seq<u8> {
    spec_trim_end(spec_trim_start(b))
}

/// Copies `b` without leading or trailing blanks.
pub fn trim(b: &[u8]) -> (r: Vec<u8>)
    ensures
        r@ == spec_trim(b@),
{
    let n = b.len();
    let mut start: usize = 0;
    assert(b@.skip(0) =~= b@);
    while start < n && (b[start] == 32 || b[start] == 9 || b[start] == 13 || b[start] == 10)
        invariant
            n == b@.len(),
            start <= n,
            spec_trim_start(b@) == spec_trim_start(b@.skip(start as int)),
        decreases n - start,
    {
        proof {
            assert(b@.skip(start as int)[0] == b@[start as int]);
            assert(b@.skip(start as int).drop_first() =~= b@.skip(start + 1));
        }
        start = start + 1;
    }
    proof {
        if start < n {
            assert(b@.skip(start as int)[0] == b@[start as int]);
        }
        assert(spec_trim_start(b@) == b@.skip(start as int));
    }
    let mut end: usize = n;
    assert(b@.skip(start as int).take(n - start) =~= b@.skip(start as int));
    while end > start && (b[end - 1] == 32 || b[end - 1] == 9 || b[end - 1] == 13 || b[end - 1]
        == 10)
        invariant
            n == b@.len(),
            start <= end <= n,
            spec_trim_start(b@) == b@.skip(start as int),
            spec_trim_end(b@.skip(start as int)) == spec_trim_end(
                b@.skip(start as int).take(end - start),
            ),
        decreases end,
    {
        proof {
            let cur = b@.skip(start as int).take(end - start);
            assert(cur[cur.len() - 1] == b@[end - 1]);
            assert(cur.drop_last() =~= b@.skip(start as int).take(end - 1 - start));
        }
        end = end - 1;
    }
    proof {
        let cur = b@.skip(start as int).take(end - start);
        if end > start {
            assert(cur[cur.len() - 1] == b@[end - 1]);
        }
        assert(spec_trim_end(cur) == cur);
    }
    let r = read_bytes(b, start, end - start);
    assert(r@ =~= b@.skip(start as int).take(end - start));
    r
}

} // verus!

verus! {

/// The index `spec_find_byte` returns stays within the buffer.
pub proof fn lemma_find_byte_bounds(b: Seq<u8>, from: int, x: u8)
    requires
        0 <= from <= b.len(),
    ensures
        from <= spec_find_byte(b, from, x) <= b.len(),
    decreases b.len() - from,
{
    if from < b.len() && b[from] != x {
        lemma_find_byte_bounds(b, from + 1, x);
    }
}

/// The index `spec_find_sub` returns stays within the buffer, and a found
/// occurrence fits inside it.
pub proof fn lemma_find_sub_bounds(b: Seq<u8>, pat: Seq<u8>, from: int)
    requires
        0 <= from <= b.len(),
    ensures
        from <= spec_find_sub(b, pat, from) <= b.len(),
        spec_find_sub(b, pat, from) < b.len() ==> spec_find_sub(b, pat, from) + pat.len()
            <= b.len(),
    decreases b.len() - from,
{
    if pat.len() == 0 {
    } else if from + pat.len() > b.len() {
    } else if b.subrange(from, from + pat.len()) == pat {
    } else {
        lemma_find_sub_bounds(b, pat, from + 1);
    }
}

} // verus!

verus! {

/// Searching a suffix finds the same occurrence, shifted.
pub proof fn lemma_find_sub_shift_gen(b: Seq<u8>, pat: Seq<u8>, base: int, from: int)
    requires
        0 <= base <= from <= b.len(),
    ensures
        spec_find_sub(b.skip(base), pat, from - base) == spec_find_sub(b, pat, from) - base,
    decreases b.len() - from,
{
    if pat.len() == 0 {
    } else if from + pat.len() > b.len() {
    } else {
        assert(b.skip(base).subrange(from - base, from - base + pat.len()) =~= b.subrange(
            from,
            from + pat.len(),
        ));
        if b.subrange(from, from + pat.len()) == pat {
        } else {
            lemma_find_sub_shift_gen(b, pat, base, from + 1);
        }
    }
}

/// Searching a suffix for one byte finds the same occurrence, shifted.
pub proof fn lemma_find_byte_shift_suffix(b: Seq<u8>, base: int, from: int, x: u8)
    requires
        0 <= base <= from <= b.len(),
    ensures
        spec_find_byte(b.skip(base), from - base, x) == spec_find_byte(b, from, x) - base,
    decreases b.len() - from,
{
    if from < b.len() {
        assert(b.skip(base)[from - base] == b[from]);
        if b[from] != x {
            lemma_find_byte_shift_suffix(b, base, from + 1, x);
        }
    }
}

} // verus!

verus! {

/// Appends all of `s` to the end of `v`.
pub fn append_u16s(v: &mut Vec<u16>, s: &[u16])
    ensures
        final(v)@ == old(v)@ + s@,
{
    let mut i: usize = 0;
    while i < s.len()
        invariant
            i <= s@.len(),
            v@ == old(v)@ + s@.subrange(0, i as int),
        decreases s@.len() - i,
    {
        v.push(s[i]);
        assert(v@ =~= old(v)@ + s@.subrange(0, i + 1));
        i = i + 1;
    }
    assert(v@ =~= old(v)@ + s@);
}

} // verus!
