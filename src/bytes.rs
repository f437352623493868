use vstd::prelude::*;

verus! {

/// True when no byte of `s` is equal to `b`.
pub open spec fn lacks(s: Seq<u8>, b: u8) -> bool {
    forall|i: int| 0 <= i < s.len() ==> s[i] != b
}

/// Copies `b[lo..hi]` into a fresh vector.
pub fn copy_range(b: &[u8], lo: usize, hi: usize) -> (r: Vec<u8>)
    requires
        lo <= hi <= b@.len(),
    ensures
        r@ == b@.subrange(lo as int, hi as int),
{
    let mut r: Vec<u8> = Vec::new();
    let mut i: usize = lo;
    while i < hi
        invariant
            lo <= i <= hi <= b@.len(),
            r@ == b@.subrange(lo as int, i as int),
        decreases hi - i,
    {
        r.push(b[i]);
        i = i + 1;
        assert(r@ =~= b@.subrange(lo as int, i as int));
    }
    r
}

/// Whether `pat` occurs in `b` starting at position `p`.
pub fn matches_at(b: &[u8], p: usize, pat: &[u8]) -> (r: bool)
    ensures
        r == (p + pat@.len() <= b@.len() && b@.subrange(p as int, p + pat@.len()) == pat@),
{
    if pat.len() > b.len() || p > b.len() - pat.len() {
        return false;
    }
    let mut i: usize = 0;
    while i < pat.len()
        invariant
            p + pat@.len() <= b@.len(),
            b@.len() == b.len(),
            0 <= i <= pat@.len(),
            forall|j: int| 0 <= j < i ==> b@[p + j] == pat@[j],
        decreases pat.len() - i,
    {
        if b[p + i] != pat[i] {
            assert(b@.subrange(p as int, p + pat@.len())[i as int] != pat@[i as int]);
            return false;
        }
        i = i + 1;
    }
    assert(b@.subrange(p as int, p + pat@.len()) =~= pat@);
    true
}

/// Index of the first occurrence of `x` in `b` at or after `from`, or `b.len()`
/// when there is none.
pub fn find_byte(b: &[u8], from: usize, x: u8) -> (r: usize)
    requires
        from <= b@.len(),
    ensures
        from <= r <= b@.len(),
        r < b@.len() ==> b@[r as int] == x,
        lacks(b@.subrange(from as int, r as int), x),
{
    let mut i: usize = from;
    while i < b.len()
        invariant
            from <= i <= b@.len(),
            lacks(b@.subrange(from as int, i as int), x),
        decreases b.len() - i,
    {
        if b[i] == x {
            return i;
        }
        i = i + 1;
        assert(b@.subrange(from as int, i as int) =~= b@.subrange(from as int, i - 1).push(b@[i - 1]));
    }
    i
}

/// Index of the last occurrence of `x` in `b`, or `b.len()` when there is none.
pub fn find_last(b: &[u8], x: u8) -> (r: usize)
    ensures
        r <= b@.len(),
        r < b@.len() ==> b@[r as int] == x && lacks(b@.subrange(r + 1, b@.len() as int), x),
        r == b@.len() ==> lacks(b@, x),
{
    let mut i: usize = b.len();
    while i > 0
        invariant
            i <= b@.len(),
            lacks(b@.subrange(i as int, b@.len() as int), x),
        decreases i,
    {
        if b[i - 1] == x {
            return i - 1;
        }
        i = i - 1;
        assert(b@.subrange(i as int, b@.len() as int) =~= seq![b@[i as int]] + b@.subrange(
            i + 1,
            b@.len() as int,
        ));
    }
    assert(b@.subrange(0, b@.len() as int) =~= b@);
    b.len()
}

/// Appends every byte of `src` to `dst`.
pub fn append_bytes(dst: &mut Vec<u8>, src: &[u8])
    ensures
        final(dst)@ == old(dst)@ + src@,
{
    let mut i: usize = 0;
    while i < src.len()
        invariant
            0 <= i <= src@.len(),
            dst@ == old(dst)@ + src@.subrange(0, i as int),
        decreases src.len() - i,
    {
        dst.push(src[i]);
        i = i + 1;
        assert(dst@ =~= old(dst)@ + src@.subrange(0, i as int));
    }
    assert(src@.subrange(0, src@.len() as int) =~= src@);
}

} // verus!
