//! Byte strings.
use vstd::prelude::*;

verus! {

/// Whether two byte strings hold the same bytes.
pub fn same_bytes(a: &[u8], b: &[u8]) -> (r: bool)
    ensures
        r == (a@ == b@),
{
    if a.len() != b.len() {
        return false;
    }
    let mut i: usize = 0;
    while i < a.len()
        invariant
            i <= a@.len(),
            a@.len() == b@.len(),
            forall|j: int| 0 <= j < i ==> a@[j] == b@[j],
        decreases a@.len() - i,
    {
        if a[i] != b[i] {
            return false;
        }
        i = i + 1;
    }
    assert(a@ =~= b@);
    true
}

/// The bytes of `a` from `lo` up to `hi`.
pub fn byte_range(a: &[u8], lo: usize, hi: usize) -> (r: Vec<u8>)
    requires
        lo <= hi <= a@.len(),
    ensures
        r@ == a@.subrange(lo as int, hi as int),
{
    let mut r: Vec<u8> = Vec::new();
    let mut i: usize = lo;
    while i < hi
        invariant
            lo <= i <= hi <= a@.len(),
            r@ == a@.subrange(lo as int, i as int),
        decreases hi - i,
    {
        r.push(a[i]);
        i = i + 1;
        assert(a@.subrange(lo as int, i as int) =~= a@.subrange(lo as int, i - 1).push(a@[i - 1]));
    }
    r
}

/// A copy of `a`.
pub fn copied_bytes(a: &[u8]) -> (r: Vec<u8>)
    ensures
        r@ == a@,
{
    let r = byte_range(a, 0, a.len());
    assert(r@ =~= a@);
    r
}

/// Thirty-two bytes as an array; any other number of them as nothing.
pub fn exactly_32(a: &[u8]) -> (r: Option<[u8; 32]>)
    ensures
        match r {
            Some(k) => k@ == a@,
            None => a@.len() != 32,
        },
{
    if a.len() != 32 {
        return None;
    }
    let mut k: [u8; 32] = [0u8; 32];
    let mut i: usize = 0;
    while i < 32
        invariant
            i <= 32,
            a@.len() == 32,
            forall|j: int| 0 <= j < i ==> k@[j] == a@[j],
        decreases 32 - i,
    {
        k[i] = a[i];
        i = i + 1;
    }
    assert(k@ =~= a@);
    Some(k)
}

/// Sixteen bytes as an array; any other number of them as nothing.
pub fn exactly_16(a: &[u8]) -> (r: Option<[u8; 16]>)
    ensures
        match r {
            Some(k) => k@ == a@,
            None => a@.len() != 16,
        },
{
    if a.len() != 16 {
        return None;
    }
    let mut k: [u8; 16] = [0u8; 16];
    let mut i: usize = 0;
    while i < 16
        invariant
            i <= 16,
            a@.len() == 16,
            forall|j: int| 0 <= j < i ==> k@[j] == a@[j],
        decreases 16 - i,
    {
        k[i] = a[i];
        i = i + 1;
    }
    assert(k@ =~= a@);
    Some(k)
}

} // verus!
