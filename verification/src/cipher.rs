//! The block-cipher collaborator: trusted wrappers around the AES-128
//! block primitive, and verified ECB and CBC modes built on top of them.

use vstd::prelude::*;

use aes::cipher::generic_array::GenericArray;
use aes::cipher::{BlockDecrypt, BlockEncrypt, KeyInit};


verus! {

/// The AES-128 encryption of one 16-byte block under a 16-byte key.
pub uninterp spec fn aes_block(key: Seq<u8>, b: Seq<u8>) -> Seq<u8>;

/// The AES-128 decryption of one 16-byte block under a 16-byte key.
pub uninterp spec fn aes_unblock(key: Seq<u8>, b: Seq<u8>) -> Seq<u8>;

/// Relies on aes::Aes128 with cipher::BlockEncrypt::encrypt_block: a keyed
/// permutation of 16-byte blocks, inverted by the key's decryption.
#[verifier::external_body]
pub fn aes128_encrypt_block(key: &[u8], block: &[u8]) -> (r: Vec<u8>)
    requires
        key@.len() == 16,
        block@.len() == 16,
    ensures
        r@.len() == 16,
        r@ == aes_block(key@, block@),
        aes_unblock(key@, r@) == block@,
{
    let cipher = aes::Aes128::new(GenericArray::from_slice(key));
    let mut b = GenericArray::clone_from_slice(block);
    cipher.encrypt_block(&mut b);
    b.to_vec()
}

/// Relies on aes::Aes128 with cipher::BlockDecrypt::decrypt_block: the
/// inverse of the same key's block encryption.
#[verifier::external_body]
pub fn aes128_decrypt_block(key: &[u8], block: &[u8]) -> (r: Vec<u8>)
    requires
        key@.len() == 16,
        block@.len() == 16,
    ensures
        r@.len() == 16,
        r@ == aes_unblock(key@, block@),
        aes_block(key@, r@) == block@,
{
    let cipher = aes::Aes128::new(GenericArray::from_slice(key));
    let mut b = GenericArray::clone_from_slice(block);
    cipher.decrypt_block(&mut b);
    b.to_vec()
}

/// The `j`-th 16-byte block of a byte sequence.
pub open spec fn block_of(s: Seq<u8>, j: int) -> Seq<u8> {
    s.subrange(16 * j, 16 * j + 16)
}

/// Ciphertext `c` is the ECB encryption of message `m` under `key`:
/// every ciphertext block is the encryption of the message block in the
/// same position, and decrypts back to it.
pub open spec fn ecb_blocks_ok(key: Seq<u8>, m: Seq<u8>, c: Seq<u8>) -> bool {
    &&& c.len() == m.len()
    &&& forall|j: int|
        0 <= j < m.len() as int / 16 ==> (#[trigger] block_of(c, j)) == aes_block(
            key,
            block_of(m, j),
        ) && aes_unblock(key, block_of(c, j)) == block_of(m, j)
}

/// Bytewise exclusive or of two equally long sequences.
pub open spec fn spec_xor(a: Seq<u8>, b: Seq<u8>) -> Seq<u8> {
    Seq::new(a.len(), |i: int| a[i] ^ b[i])
}

/// The block chained into position `j` of a CBC ciphertext: the IV for the
/// first block, the previous ciphertext block after that.
pub open spec fn cbc_prev(iv: Seq<u8>, c: Seq<u8>, j: int) -> Seq<u8> {
    if j == 0 {
        iv
    } else {
        block_of(c, j - 1)
    }
}

/// Ciphertext `c` is the CBC encryption of message `m` under `key` with
/// initialization vector `iv`: each ciphertext block encrypts the message
/// block xored with the previous ciphertext block (or the IV).
pub open spec fn cbc_blocks_ok(key: Seq<u8>, iv: Seq<u8>, m: Seq<u8>, c: Seq<u8>) -> bool {
    &&& c.len() == m.len()
    &&& forall|j: int|
        0 <= j < m.len() as int / 16 ==> (#[trigger] block_of(c, j)) == aes_block(
            key,
            spec_xor(cbc_prev(iv, c, j), block_of(m, j)),
        ) && aes_unblock(key, block_of(c, j)) == spec_xor(cbc_prev(iv, c, j), block_of(m, j))
}

/// Copy the `j`-th block of a byte string.
pub fn block_at(s: &[u8], j: usize) -> (r: Vec<u8>)
    requires
        16 * j + 16 <= s@.len(),
    ensures
        r@ == block_of(s@, j as int),
        r@.len() == 16,
{
    let n = s.len();
    let mut r: Vec<u8> = Vec::new();
    let mut t: usize = 0;
    while t < 16
        invariant
            t <= 16,
            16 * j + 16 <= n == s@.len(),
            r@ == s@.subrange(16 * j as int, 16 * j + t),
        decreases 16 - t,
    {
        r.push(s[16 * j + t]);
        proof {
            assert(r@ =~= s@.subrange(16 * j as int, 16 * j + t + 1));
        }
        t += 1;
    }
    proof {
        assert(r@ =~= block_of(s@, j as int));
    }
    r
}

/// Compare the `j`-th blocks of two byte strings.
pub fn blocks_equal(a: &[u8], aj: usize, b: &[u8], bj: usize) -> (r: bool)
    requires
        16 * aj + 16 <= a@.len(),
        16 * bj + 16 <= b@.len(),
    ensures
        r == (block_of(a@, aj as int) == block_of(b@, bj as int)),
{
    let an = a.len();
    let bn = b.len();
    let mut t: usize = 0;
    while t < 16
        invariant
            t <= 16,
            16 * aj + 16 <= an == a@.len(),
            16 * bj + 16 <= bn == b@.len(),
            forall|u: int|
                0 <= u < t ==> #[trigger] block_of(a@, aj as int)[u] == block_of(b@, bj as int)[u],
        decreases 16 - t,
    {
        if a[16 * aj + t] != b[16 * bj + t] {
            proof {
                assert(block_of(a@, aj as int)[t as int] != block_of(b@, bj as int)[t as int]);
            }
            return false;
        }
        t += 1;
    }
    proof {
        assert(block_of(a@, aj as int) =~= block_of(b@, bj as int));
    }
    true
}

/// Bytewise exclusive or; the two arguments must be equally long.
pub fn xor(a: &[u8], b: &[u8]) -> (r: Vec<u8>)
    requires
        a@.len() == b@.len(),
    ensures
        r@ == spec_xor(a@, b@),
{
    let mut r: Vec<u8> = Vec::new();
    let mut i: usize = 0;
    while i < a.len()
        invariant
            i <= a@.len(),
            a@.len() == b@.len(),
            r@ == spec_xor(a@, b@).take(i as int),
        decreases a@.len() - i,
    {
        r.push(a[i] ^ b[i]);
        proof {
            assert(r@ =~= spec_xor(a@, b@).take(i + 1));
        }
        i += 1;
    }
    proof {
        assert(spec_xor(a@, b@).take(a@.len() as int) =~= spec_xor(a@, b@));
    }
    r
}

/// ECB-encrypt a whole number of blocks.
pub fn ecb_encrypt_blocks(key: &[u8], m: &[u8]) -> (r: Vec<u8>)
    requires
        key@.len() == 16,
        m@.len() % 16 == 0,
    ensures
        ecb_blocks_ok(key@, m@, r@),
{
    let mut r: Vec<u8> = Vec::new();
    let mut j: usize = 0;
    let nblocks = m.len() / 16;
    proof {
        vstd::arithmetic::div_mod::lemma_fundamental_div_mod(m@.len() as int, 16);
    }
    while j < nblocks
        invariant
            j <= nblocks,
            key@.len() == 16,
            nblocks == m@.len() as int / 16,
            m@.len() == 16 * nblocks,
            r@.len() == 16 * j,
            forall|u: int|
                0 <= u < j ==> (#[trigger] block_of(r@, u)) == aes_block(key@, block_of(m@, u))
                    && aes_unblock(key@, block_of(r@, u)) == block_of(m@, u),
        decreases nblocks - j,
    {
        let block = block_at(m, j);
        let mut enc = aes128_encrypt_block(key, block.as_slice());
        let ghost prev = r@;
        let ghost encview = enc@;
        r.append(&mut enc);
        proof {
            assert(r@ == prev + encview);
            assert forall|u: int| 0 <= u < j + 1 implies (#[trigger] block_of(r@, u)) == aes_block(
                key@,
                block_of(m@, u),
            ) && aes_unblock(key@, block_of(r@, u)) == block_of(m@, u) by {
                if u < j {
                    assert(block_of(r@, u) =~= block_of(prev, u));
                } else {
                    assert(block_of(r@, u) =~= encview);
                }
            }
        }
        j += 1;
    }
    proof {
        assert(r@.len() == m@.len());
    }
    r
}

/// CBC-encrypt a whole number of blocks under the given IV.
pub fn cbc_encrypt_blocks(key: &[u8], iv: &[u8], m: &[u8]) -> (r: Vec<u8>)
    requires
        key@.len() == 16,
        iv@.len() == 16,
        m@.len() % 16 == 0,
    ensures
        cbc_blocks_ok(key@, iv@, m@, r@),
{
    let mut r: Vec<u8> = Vec::new();
    let mut prev_block: Vec<u8> = {
        let mut v: Vec<u8> = Vec::new();
        v.extend_from_slice(iv);
        v
    };
    let mut j: usize = 0;
    let nblocks = m.len() / 16;
    proof {
        vstd::arithmetic::div_mod::lemma_fundamental_div_mod(m@.len() as int, 16);
        assert(prev_block@ == iv@);
    }
    while j < nblocks
        invariant
            j <= nblocks,
            key@.len() == 16,
            iv@.len() == 16,
            nblocks == m@.len() as int / 16,
            m@.len() == 16 * nblocks,
            r@.len() == 16 * j,
            prev_block@.len() == 16,
            prev_block@ == cbc_prev(iv@, r@, j as int),
            forall|u: int|
                0 <= u < j ==> (#[trigger] block_of(r@, u)) == aes_block(
                    key@,
                    spec_xor(cbc_prev(iv@, r@, u), block_of(m@, u)),
                ) && aes_unblock(key@, block_of(r@, u)) == spec_xor(
                    cbc_prev(iv@, r@, u),
                    block_of(m@, u),
                ),
        decreases nblocks - j,
    {
        let block = block_at(m, j);
        let xored = xor(prev_block.as_slice(), block.as_slice());
        let enc = aes128_encrypt_block(key, xored.as_slice());
        let ghost prev = r@;
        let ghost encview = enc@;
        let ghost old_pb = prev_block@;
        let mut enc2 = enc;
        prev_block = {
            let mut v: Vec<u8> = Vec::new();
            v.extend_from_slice(enc2.as_slice());
            v
        };
        r.append(&mut enc2);
        proof {
            assert(r@ == prev + encview);
            assert forall|u: int| 0 <= u < j implies #[trigger] block_of(r@, u) == block_of(
                prev,
                u,
            ) by {
                assert(block_of(r@, u) =~= block_of(prev, u));
            }
            assert(block_of(r@, j as int) =~= encview);
            assert forall|u: int| 0 <= u < j + 1 implies (#[trigger] block_of(r@, u)) == aes_block(
                key@,
                spec_xor(cbc_prev(iv@, r@, u), block_of(m@, u)),
            ) && aes_unblock(key@, block_of(r@, u)) == spec_xor(
                cbc_prev(iv@, r@, u),
                block_of(m@, u),
            ) by {
                assert(cbc_prev(iv@, r@, u) == cbc_prev(iv@, prev, u));
                if u == j {
                    assert(cbc_prev(iv@, prev, u) == old_pb);
                    assert(block_of(r@, u) == encview);
                }
            }
        }
        j += 1;
    }
    r
}

/// CBC-decrypt a whole number of blocks under the given IV: each plaintext
/// block is the block decryption xored with the previous ciphertext block.
#[verifier::rlimit(50)]
pub fn cbc_decrypt_blocks(key: &[u8], iv: &[u8], c: &[u8]) -> (r: Vec<u8>)
    requires
        key@.len() == 16,
        iv@.len() == 16,
        c@.len() % 16 == 0,
    ensures
        r@.len() == c@.len(),
        r@ == spec_cbc_dec(key@, iv@, c@),
        forall|j: int|
            0 <= j < c@.len() as int / 16 ==> (#[trigger] block_of(r@, j)) == spec_xor(
                if j == 0 {
                    iv@
                } else {
                    block_of(c@, j - 1)
                },
                aes_unblock(key@, block_of(c@, j)),
            ),
{
    let mut r: Vec<u8> = Vec::new();
    let mut j: usize = 0;
    let nblocks = c.len() / 16;
    proof {
        vstd::arithmetic::div_mod::lemma_fundamental_div_mod(c@.len() as int, 16);
    }
    while j < nblocks
        invariant
            j <= nblocks,
            key@.len() == 16,
            iv@.len() == 16,
            nblocks == c@.len() as int / 16,
            c@.len() == 16 * nblocks,
            r@.len() == 16 * j,
            forall|u: int|
                0 <= u < j ==> (#[trigger] block_of(r@, u)) == spec_xor(
                    if u == 0 {
                        iv@
                    } else {
                        block_of(c@, u - 1)
                    },
                    aes_unblock(key@, block_of(c@, u)),
                ),
        decreases nblocks - j,
    {
        let block = block_at(c, j);
        let dec = aes128_decrypt_block(key, block.as_slice());
        let plain = if j == 0 {
            xor(iv, dec.as_slice())
        } else {
            let prev = block_at(c, j - 1);
            xor(prev.as_slice(), dec.as_slice())
        };
        let ghost prev = r@;
        let ghost plainview = plain@;
        let mut plain2 = plain;
        r.append(&mut plain2);
        proof {
            assert(r@ == prev + plainview);
            assert forall|u: int| 0 <= u < j + 1 implies (#[trigger] block_of(r@, u)) == spec_xor(
                if u == 0 {
                    iv@
                } else {
                    block_of(c@, u - 1)
                },
                aes_unblock(key@, block_of(c@, u)),
            ) by {
                if u < j {
                    assert(block_of(r@, u) =~= block_of(prev, u));
                } else {
                    assert(block_of(r@, u) =~= plainview);
                }
            }
        }
        j += 1;
    }
    proof {
        assert forall|t: int| 0 <= t < r@.len() implies r@[t] == spec_cbc_dec(key@, iv@, c@)[t]
            by {
            let bj = t / 16;
            let u = t % 16;
            vstd::arithmetic::div_mod::lemma_fundamental_div_mod(t, 16);
            vstd::arithmetic::div_mod::lemma_mod_division_less_than_divisor(t, 16);
            assert(0 <= bj < nblocks) by {
                vstd::arithmetic::div_mod::lemma_div_pos_is_pos(t, 16);
                if bj >= nblocks {
                    assert(16 * bj + u >= 16 * nblocks) by (nonlinear_arith)
                        requires
                            bj >= nblocks,
                            u >= 0,
                    ;
                }
            };
            assert(r@[t] == block_of(r@, bj)[u]);
            assert(block_of(r@, bj) == spec_xor(cbc_prev(iv@, c@, bj), aes_unblock(key@, block_of(c@, bj))));
        }
        assert(r@ =~= spec_cbc_dec(key@, iv@, c@));
    }
    r
}

/// The blockwise ECB decryption of a whole number of blocks.
pub open spec fn spec_ecb_dec(key: Seq<u8>, c: Seq<u8>) -> Seq<u8> {
    Seq::new(c.len(), |t: int| aes_unblock(key, block_of(c, t / 16))[t % 16])
}

/// The CBC decryption of a whole number of blocks under the given IV.
pub open spec fn spec_cbc_dec(key: Seq<u8>, iv: Seq<u8>, c: Seq<u8>) -> Seq<u8> {
    Seq::new(
        c.len(),
        |t: int| spec_xor(cbc_prev(iv, c, t / 16), aes_unblock(key, block_of(c, t / 16)))[t % 16],
    )
}

/// ECB-decrypt a whole number of blocks.
pub fn ecb_decrypt_blocks(key: &[u8], c: &[u8]) -> (r: Vec<u8>)
    requires
        key@.len() == 16,
        c@.len() % 16 == 0,
    ensures
        r@ == spec_ecb_dec(key@, c@),
        r@.len() == c@.len(),
{
    let mut r: Vec<u8> = Vec::new();
    let mut j: usize = 0;
    let nblocks = c.len() / 16;
    proof {
        vstd::arithmetic::div_mod::lemma_fundamental_div_mod(c@.len() as int, 16);
    }
    while j < nblocks
        invariant
            j <= nblocks,
            key@.len() == 16,
            nblocks == c@.len() as int / 16,
            c@.len() == 16 * nblocks,
            r@.len() == 16 * j,
            r@ == spec_ecb_dec(key@, c@).take(16 * j),
        decreases nblocks - j,
    {
        let block = block_at(c, j);
        let mut dec = aes128_decrypt_block(key, block.as_slice());
        let ghost prev = r@;
        let ghost decview = dec@;
        r.append(&mut dec);
        proof {
            assert(r@ == prev + decview);
            assert forall|t: int| 0 <= t < 16 * (j + 1) implies r@[t] == spec_ecb_dec(key@, c@)[t]
                by {
                if t < 16 * j {
                    assert(r@[t] == prev[t]);
                    assert(prev[t] == spec_ecb_dec(key@, c@).take(16 * j)[t]);
                } else {
                    let u = t - 16 * j;
                    vstd::arithmetic::div_mod::lemma_fundamental_div_mod_converse_div(
                        t,
                        16,
                        j as int,
                        u,
                    );
                    vstd::arithmetic::div_mod::lemma_fundamental_div_mod_converse_mod(
                        t,
                        16,
                        j as int,
                        u,
                    );
                    assert(r@[t] == decview[u]);
                }
            }
            assert(r@ =~= spec_ecb_dec(key@, c@).take(16 * (j + 1)));
        }
        j += 1;
    }
    proof {
        assert(spec_ecb_dec(key@, c@).take(16 * nblocks) =~= spec_ecb_dec(key@, c@));
    }
    r
}

/// Xor a 16-byte mask into the `j`-th block, leaving the rest unchanged.
pub fn xor_into_block(c: &[u8], j: usize, mask: &[u8]) -> (r: Vec<u8>)
    requires
        16 * j + 16 <= c@.len(),
        mask@.len() == 16,
    ensures
        r@.len() == c@.len(),
        forall|t: int|
            0 <= t < c@.len() ==> #[trigger] r@[t] == (if 16 * j <= t < 16 * j + 16 {
                c@[t] ^ mask@[t - 16 * j]
            } else {
                c@[t]
            }),
{
    let n = c.len();
    let mut r: Vec<u8> = Vec::new();
    let mut i: usize = 0;
    while i < n
        invariant
            i <= n == c@.len(),
            16 * j + 16 <= c@.len(),
            mask@.len() == 16,
            r@.len() == i,
            forall|t: int|
                0 <= t < i ==> #[trigger] r@[t] == (if 16 * j <= t < 16 * j + 16 {
                    c@[t] ^ mask@[t - 16 * j]
                } else {
                    c@[t]
                }),
        decreases n - i,
    {
        if 16 * j <= i && i < 16 * j + 16 {
            r.push(c[i] ^ mask[i - 16 * j]);
        } else {
            r.push(c[i]);
        }
        i += 1;
    }
    r
}

} // verus!
