//! Byte-string helpers: comparison, concatenation and little-endian encoding.
use vstd::prelude::*;

verus! {

/// Compares two byte strings.
pub fn bytes_eq(a: &[u8], b: &[u8]) -> (r: bool)
    ensures
        r == (a@ == b@),
{
    if a.len() != b.len() {
        return false;
    }
    let mut i: usize = 0;
    while i < a.len()
        invariant
            a@.len() == b@.len(),
            0 <= i <= a@.len(),
            forall|k: int| 0 <= k < i ==> a@[k] == b@[k],
        decreases a.len() - i,
    {
        if a[i] != b[i] {
            return false;
        }
        i = i + 1;
    }
    assert(a@ =~= b@);
    true
}

/// Copies a byte string.
pub fn copy_bytes(a: &[u8]) -> (r: Vec<u8>)
    ensures
        r@ == a@,
{
    let mut r: Vec<u8> = Vec::new();
    let mut i: usize = 0;
    while i < a.len()
        invariant
            0 <= i <= a@.len(),
            r@ == a@.subrange(0, i as int),
        decreases a.len() - i,
    {
        r.push(a[i]);
        i = i + 1;
    }
    assert(r@ =~= a@);
    r
}

/// Appends a byte string to a buffer.
pub fn append_bytes(buf: &mut Vec<u8>, a: &[u8])
    ensures
        final(buf)@ == old(buf)@ + a@,
{
    let ghost start = buf@;
    let mut i: usize = 0;
    while i < a.len()
        invariant
            0 <= i <= a@.len(),
            buf@ == start + a@.subrange(0, i as int),
        decreases a.len() - i,
    {
        buf.push(a[i]);
        i = i + 1;
        assert(buf@ =~= start + a@.subrange(0, i as int));
    }
    assert(a@.subrange(0, a@.len() as int) =~= a@);
}

/// The `n` low bytes of `x`, least significant first.
pub open spec fn le_bytes_n(x: nat, n: nat) -> Seq<u8>
    decreases n,
{
    if n == 0 {
        Seq::empty()
    } else {
        seq![(x % 256) as u8] + le_bytes_n(x / 256, (n - 1) as nat)
    }
}

/// The 16-byte little-endian encoding of a `u128`.
pub open spec fn le_bytes(x: u128) -> Seq<u8> {
    le_bytes_n(x as nat, 16)
}

proof fn lemma_le_bytes_len(x: nat, n: nat)
    ensures
        le_bytes_n(x, n).len() == n,
    decreases n,
{
    if n > 0 {
        lemma_le_bytes_len(x / 256, (n - 1) as nat);
    }
}

/// Returns the 16-byte little-endian encoding of `x`.
pub fn u128_le_bytes(x: u128) -> (r: Vec<u8>)
    ensures
        r@ == le_bytes(x),
        r@.len() == 16,
{
    let mut r: Vec<u8> = Vec::new();
    let mut v: u128 = x;
    let mut i: usize = 0;
    proof {
        lemma_le_bytes_len(x as nat, 16);
    }
    while i < 16
        invariant
            0 <= i <= 16,
            r@ + le_bytes_n(v as nat, (16 - i) as nat) == le_bytes(x),
        decreases 16 - i,
    {
        let ghost before = r@;
        let ghost vb = v;
        r.push((v % 256) as u8);
        v = v / 256;
        proof {
            assert(le_bytes_n(vb as nat, (16 - i) as nat) == seq![(vb % 256) as u8] + le_bytes_n(
                v as nat,
                (16 - i - 1) as nat,
            ));
            assert(r@ + le_bytes_n(v as nat, (16 - i - 1) as nat) =~= before + le_bytes_n(
                vb as nat,
                (16 - i) as nat,
            ));
        }
        i = i + 1;
    }
    assert(le_bytes_n(v as nat, 0) =~= Seq::<u8>::empty());
    assert(r@ =~= le_bytes(x));
    r
}

} // verus!
