//! PKCS#7-style block padding: pad a message to a multiple of the block
//! size and test whether a padded message is well formed.

use vstd::prelude::*;

verus! {

/// The cipher block size in bytes, shared by every block-cipher oracle.
pub const BLOCK_SIZE: usize = 16;

/// Length of `pad(m, bs)`: the next multiple of `bs` strictly above `m.len()`.
pub open spec fn padded_len(len: nat, bs: nat) -> nat {
    ((len / bs) + 1) * bs
}

/// The padded message: the message followed by `k` copies of the byte `k`,
/// where `k` is the distance to the next strictly larger multiple of `bs`.
pub open spec fn spec_pad(m: Seq<u8>, bs: nat) -> Seq<u8> {
    m + Seq::new(
        (padded_len(m.len(), bs) - m.len()) as nat,
        |i: int| (bs - m.len() % bs) as u8,
    )
}

/// A message carries valid padding: it is a non-empty whole number of
/// blocks, its last byte `k` satisfies `1 <= k <= bs`, and the last `k`
/// bytes all equal `k`.
pub open spec fn spec_padding_valid(m: Seq<u8>, bs: nat) -> bool {
    &&& m.len() > 0
    &&& m.len() % bs == 0
    &&& 1 <= m.last() <= bs
    &&& forall|i: int| m.len() - m.last() <= i < m.len() ==> m[i] == m.last()
}

/// Arithmetic facts about `padded_len`: it is the next strictly larger
/// multiple of `bs`, so the pad is between 1 and `bs` bytes long.
pub proof fn lemma_padded_len(len: nat, bs: nat)
    requires
        bs > 0,
    ensures
        padded_len(len, bs) % bs == 0,
        padded_len(len, bs) - len == bs - len % bs,
        1 <= padded_len(len, bs) - len <= bs,
{
    let n = len as int;
    let b = bs as int;
    let q = n / b;
    vstd::arithmetic::div_mod::lemma_fundamental_div_mod(n, b);
    vstd::arithmetic::div_mod::lemma_mod_division_less_than_divisor(n, b);
    vstd::arithmetic::mul::lemma_mul_is_distributive_add_other_way(b, q, 1);
    vstd::arithmetic::div_mod::lemma_mod_multiples_basic(q + 1, b);
}

/// A positive whole number of blocks is at least one block long.
pub proof fn lemma_multiple_ge(len: nat, bs: nat)
    requires
        bs > 0,
        len > 0,
        len % bs == 0,
    ensures
        len >= bs,
{
    if len < bs {
        vstd::arithmetic::div_mod::lemma_small_mod(len, bs);
    }
}

/// Append PKCS#7 padding for block size `bs`.
pub fn pad(m: &[u8], bs: usize) -> (r: Vec<u8>)
    requires
        0 < bs <= 255,
        m@.len() + bs <= usize::MAX,
    ensures
        r@ == spec_pad(m@, bs as nat),
        r@.len() == padded_len(m@.len(), bs as nat),
        r@.len() % bs as nat == 0,
{
    let k: usize = bs - m.len() % bs;
    let mut r: Vec<u8> = Vec::new();
    r.extend_from_slice(m);
    let mut j: usize = 0;
    while j < k
        invariant
            j <= k,
            k == bs - m@.len() % bs as nat,
            0 < bs <= 255,
            m@.len() + bs <= usize::MAX,
            r@ == m@ + Seq::new(j as nat, |i: int| k as u8),
        decreases k - j,
    {
        r.push(k as u8);
        j += 1;
    }
    proof {
        lemma_padded_len(m@.len(), bs as nat);
        assert(r@ =~= spec_pad(m@, bs as nat));
    }
    r
}

/// Test PKCS#7 padding validity for block size `bs`.
pub fn padding_valid(m: &[u8], bs: usize) -> (r: bool)
    requires
        0 < bs <= 255,
    ensures
        r == spec_padding_valid(m@, bs as nat),
{
    if m.len() == 0 || m.len() % bs != 0 {
        return false;
    }
    let k = m[m.len() - 1];
    if k == 0 || (k as usize) > bs {
        return false;
    }
    proof {
        lemma_multiple_ge(m@.len(), bs as nat);
    }
    let start = m.len() - k as usize;
    let mut i: usize = start;
    while i < m.len()
        invariant
            start <= i <= m@.len(),
            start == m@.len() - k,
            1 <= k <= bs,
            k == m@.last(),
            m@.len() > 0,
            forall|j: int| start <= j < i ==> m@[j] == k,
        decreases m@.len() - i,
    {
        if m[i] != k {
            return false;
        }
        i += 1;
    }
    true
}

/// Strip PKCS#7 padding, returning `None` when the padding is invalid.
pub fn unpad(m: &[u8], bs: usize) -> (r: Option<Vec<u8>>)
    requires
        0 < bs <= 255,
    ensures
        match r {
            Some(v) => spec_padding_valid(m@, bs as nat) && v@ == m@.take(m@.len() - m@.last()),
            None => !spec_padding_valid(m@, bs as nat),
        },
{
    if !padding_valid(m, bs) {
        return None;
    }
    proof {
        lemma_multiple_ge(m@.len(), bs as nat);
    }
    let k = m[m.len() - 1];
    let keep = m.len() - k as usize;
    let mut v: Vec<u8> = Vec::new();
    let mut i: usize = 0;
    while i < keep
        invariant
            i <= keep,
            keep == m@.len() - m@.last(),
            m@.len() > 0,
            v@ == m@.take(i as int),
        decreases keep - i,
    {
        v.push(m[i]);
        i += 1;
    }
    Some(v)
}

/// Padding a message and stripping the padding gives the message back.
pub proof fn lemma_pad_unpad(m: Seq<u8>, bs: nat)
    requires
        0 < bs <= 255,
    ensures
        spec_padding_valid(spec_pad(m, bs), bs),
        spec_pad(m, bs).take(spec_pad(m, bs).len() - spec_pad(m, bs).last()) == m,
{
    let p = spec_pad(m, bs);
    let k = bs - m.len() % bs;
    lemma_padded_len(m.len(), bs);
    assert(1 <= k <= bs);
    assert(p.last() == k as u8);
    assert(forall|i: int| p.len() - k <= i < p.len() ==> p[i] == k as u8);
    assert(p.take(p.len() - k) =~= m);
}

} // verus!
