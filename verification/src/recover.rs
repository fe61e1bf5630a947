//! The byte-at-a-time recovery engine: ECB detection and recovery of an
//! oracle's hidden suffix from ciphertext comparisons alone.

use vstd::prelude::*;

use crate::cipher::{aes_block, aes_unblock, block_of, blocks_equal, cbc_blocks_ok, cbc_prev, ecb_blocks_ok, spec_xor};
use crate::errors::Error;
use crate::oracle::{DeterministicOracle, EcbOracle, Mode, ModeOracle, Oracle, MAX_SECRET};
use crate::padding::{lemma_padded_len, spec_pad};
use crate::probe::{const_vec, prefix_length, suffix_length};

verus! {

/// A run of zero bytes.
pub open spec fn zeros(n: nat) -> Seq<u8> {
    Seq::new(n, |t: int| 0u8)
}

/// What the boundary block looks like while recovering suffix byte `i`:
/// a zero fill, the already recovered suffix bytes, and `suffix[i]` last.
pub open spec fn target_block(suf: Seq<u8>, i: int) -> Seq<u8> {
    Seq::new(
        16,
        |t: int|
            if i + t < 15 {
                0u8
            } else {
                suf[i + t - 15]
            },
    )
}

/// The reference ciphertext's compared block is exactly `target_block`.
proof fn lemma_reference_block(pre: Seq<u8>, suf: Seq<u8>, i: int, pb: int, ppad: int)
    requires
        0 <= i < suf.len(),
        0 <= ppad < 16,
        pre.len() + ppad == 16 * pb,
    ensures
        ({
            let shift = i % 16;
            let block = pb + i / 16;
            let msg = spec_pad(pre + zeros((ppad + 15 - shift) as nat) + suf, 16);
            &&& msg.len() >= 16 * block + 16
            &&& block_of(msg, block) == target_block(suf, i)
        }),
{
    let p = pre.len() as int;
    let shift = i % 16;
    let block = pb + i / 16;
    vstd::arithmetic::div_mod::lemma_fundamental_div_mod(i, 16);
    vstd::arithmetic::div_mod::lemma_mod_division_less_than_divisor(i, 16);
    let raw = pre + zeros((ppad + 15 - shift) as nat) + suf;
    let msg = spec_pad(raw, 16);
    lemma_padded_len(raw.len(), 16);
    assert(16 * block == 16 * pb + 16 * (i / 16));
    assert(16 * (i / 16) == i - shift);
    assert forall|t: int| 0 <= t < 16 implies msg[16 * block + t] == target_block(suf, i)[t] by {
        let x = 16 * block + t;
        assert(x == p + ppad + (i - shift) + t);
        if i + t < 15 {
            assert(raw[x] == zeros((ppad + 15 - shift) as nat)[x - p]);
        } else {
            assert(raw[x] == suf[i + t - 15]);
        }
    }
    assert(block_of(msg, block) =~= target_block(suf, i));
}

/// The trial ciphertext's compared block is `target_block` with the guess
/// `u` in the last position.
proof fn lemma_guess_block(pre: Seq<u8>, suf: Seq<u8>, i: int, u: u8, pb: int, ppad: int)
    requires
        0 <= i < suf.len(),
        0 <= ppad < 16,
        pre.len() + ppad == 16 * pb,
    ensures
        ({
            let shift = i % 16;
            let block = pb + i / 16;
            let input = zeros((ppad + 15 - shift) as nat) + suf.take(i) + seq![u];
            let msg = spec_pad(pre + input + suf, 16);
            &&& msg.len() >= 16 * block + 16
            &&& block_of(msg, block) == target_block(suf, i).update(15, u)
        }),
{
    let p = pre.len() as int;
    let shift = i % 16;
    let block = pb + i / 16;
    vstd::arithmetic::div_mod::lemma_fundamental_div_mod(i, 16);
    vstd::arithmetic::div_mod::lemma_mod_division_less_than_divisor(i, 16);
    let input = zeros((ppad + 15 - shift) as nat) + suf.take(i) + seq![u];
    let raw = pre + input + suf;
    let msg = spec_pad(raw, 16);
    lemma_padded_len(raw.len(), 16);
    assert(16 * block == 16 * pb + 16 * (i / 16));
    assert(16 * (i / 16) == i - shift);
    assert forall|t: int| 0 <= t < 16 implies msg[16 * block + t] == target_block(suf, i).update(
        15,
        u,
    )[t] by {
        let x = 16 * block + t;
        assert(x == p + ppad + (i - shift) + t);
        assert(raw[x] == input[x - p]);
        let y = x - p;
        if i + t < 15 {
            assert(input[y] == zeros((ppad + 15 - shift) as nat)[y]);
        } else if t < 15 {
            assert(input[y] == suf.take(i)[i + t - 15]);
        } else {
            assert(y == input.len() - 1);
            assert(input[y] == u);
        }
    }
    assert(block_of(msg, block) =~= target_block(suf, i).update(15, u));
}

/// Recover the hidden suffix one byte at a time: align each unknown byte
/// at the end of a block, precompute one reference ciphertext per shift,
/// and identify the byte by trying all candidates against the reference.
pub fn decrypt_suffix<T: DeterministicOracle>(oracle: &T) -> (r: Result<Vec<u8>, Error>)
    requires
        oracle.o_wf(),
    ensures
        r matches Ok(s) && s@ == oracle.suffix(),
{
    proof {
        oracle.wf_facts();
    }
    let ghost key = oracle.key();
    let ghost pre = oracle.prefix();
    let ghost suf = oracle.suffix();
    let ghost p = pre.len() as int;
    let prefix_len = match prefix_length(oracle) {
        Ok(v) => v,
        Err(e) => {
            proof {
                assert(false);
            }
            return Err(e);
        },
    };
    let suffix_len = match suffix_length(oracle) {
        Ok(v) => v,
        Err(e) => {
            proof {
                assert(false);
            }
            return Err(e);
        },
    };
    let prefix_blocks = (prefix_len + 15) / 16;
    let prefix_padding = prefix_blocks * 16 - prefix_len;
    proof {
        vstd::arithmetic::div_mod::lemma_fundamental_div_mod(p + 15, 16);
        vstd::arithmetic::div_mod::lemma_mod_division_less_than_divisor(p + 15, 16);
        assert(prefix_blocks * 16 == p + 15 - ((p + 15) % 16));
        assert(0 <= prefix_padding < 16);
        assert(p + prefix_padding == 16 * prefix_blocks);
    }
    let ghost ppad = prefix_padding as int;
    let ghost pb = prefix_blocks as int;

    // One reference ciphertext per shift, computed before any guessing.
    let mut refs: Vec<Vec<u8>> = Vec::new();
    let mut sh: usize = 0;
    while sh < 16
        invariant
            sh <= 16,
            refs@.len() == sh,
            oracle.o_wf(),
            key == oracle.key(),
            pre == oracle.prefix(),
            suf == oracle.suffix(),
            p == pre.len(),
            0 <= ppad < 16,
            p + ppad == 16 * pb,
            prefix_padding == ppad,
            forall|v: int|
                0 <= v < sh ==> ecb_blocks_ok(
                    key,
                    spec_pad(pre + zeros((ppad + 15 - v) as nat) + suf, 16),
                    (#[trigger] refs@[v])@,
                ),
        decreases 16 - sh,
    {
        let input = const_vec(0, prefix_padding + 15 - sh);
        let c = match oracle.det_encrypt(input.as_slice()) {
            Ok(c) => c,
            Err(e) => {
                proof {
                    assert(false);
                }
                return Err(e);
            },
        };
        proof {
            assert(input@ =~= zeros((ppad + 15 - sh) as nat));
        }
        refs.push(c);
        sh += 1;
    }

    let mut recovered: Vec<u8> = Vec::new();
    let mut i: usize = 0;
    while i < suffix_len
        invariant
            i <= suffix_len,
            suffix_len == suf.len(),
            recovered@ == suf.take(i as int),
            refs@.len() == 16,
            oracle.o_wf(),
            key == oracle.key(),
            pre == oracle.prefix(),
            suf == oracle.suffix(),
            p == pre.len(),
            suf.len() <= MAX_SECRET,
            p <= MAX_SECRET,
            0 <= ppad < 16,
            p + ppad == 16 * pb,
            prefix_padding == ppad,
            prefix_blocks == pb,
            forall|v: int|
                0 <= v < 16 ==> ecb_blocks_ok(
                    key,
                    spec_pad(pre + zeros((ppad + 15 - v) as nat) + suf, 16),
                    (#[trigger] refs@[v])@,
                ),
        decreases suffix_len - i,
    {
        let block = prefix_blocks + i / 16;
        let shift = i % 16;
        proof {
            vstd::arithmetic::div_mod::lemma_fundamental_div_mod(i as int, 16);
            vstd::arithmetic::div_mod::lemma_mod_division_less_than_divisor(i as int, 16);
            lemma_reference_block(pre, suf, i as int, pb, ppad);
            assert(i as int / 16 <= i);
        }
        let ghost mref = spec_pad(pre + zeros((ppad + 15 - shift) as nat) + suf, 16);
        let mut found = false;
        let mut u: usize = 0;
        while u < 256 && !found
            invariant
                u <= 256,
                i < suffix_len,
                suffix_len == suf.len(),
                block == pb + i as int / 16,
                shift == i as int % 16,
                oracle.o_wf(),
                key == oracle.key(),
                pre == oracle.prefix(),
                suf == oracle.suffix(),
                p == pre.len(),
                suf.len() <= MAX_SECRET,
                p <= MAX_SECRET,
                0 <= ppad < 16,
                p + ppad == 16 * pb,
                prefix_padding == ppad,
                refs@.len() == 16,
                mref == spec_pad(pre + zeros((ppad + 15 - shift) as nat) + suf, 16),
                ecb_blocks_ok(key, mref, (refs@[shift as int])@),
                mref.len() >= 16 * block + 16,
                block_of(mref, block as int) == target_block(suf, i as int),
                !found ==> u <= suf[i as int],
                !found ==> recovered@ == suf.take(i as int),
                found ==> recovered@ == suf.take(i + 1),
            decreases 256 - u,
        {
            let mut guess = const_vec(0, prefix_padding + 15 - shift);
            guess.extend_from_slice(recovered.as_slice());
            guess.push(u as u8);
            proof {
                assert(guess@ =~= zeros((ppad + 15 - shift) as nat) + suf.take(i as int) + seq![
                    u as u8,
                ]);
                lemma_guess_block(pre, suf, i as int, u as u8, pb, ppad);
            }
            let c = match oracle.det_encrypt(guess.as_slice()) {
                Ok(c) => c,
                Err(e) => {
                    proof {
                        assert(false);
                    }
                    return Err(e);
                },
            };
            let ghost mg = spec_pad(pre + guess@ + suf, 16);
            proof {
                assert(block_of(mg, block as int) == target_block(suf, i as int).update(
                    15,
                    u as u8,
                ));
                vstd::arithmetic::div_mod::lemma_fundamental_div_mod(mref.len() as int, 16);
                vstd::arithmetic::div_mod::lemma_fundamental_div_mod(mg.len() as int, 16);
            }
            let rb = refs[shift].as_slice();
            let hit = blocks_equal(rb, block, c.as_slice(), block);
            proof {
                let tb = target_block(suf, i as int);
                if u as u8 == suf[i as int] {
                    assert(tb.update(15, u as u8) =~= tb);
                    assert(block_of((refs@[shift as int])@, block as int) == block_of(
                        c@,
                        block as int,
                    ));
                    assert(hit);
                } else {
                    if hit {
                        assert(aes_unblock(key, block_of((refs@[shift as int])@, block as int))
                            == tb);
                        assert(aes_unblock(key, block_of(c@, block as int)) == tb.update(
                            15,
                            u as u8,
                        ));
                        assert(tb[15] == suf[i as int]);
                        assert(tb.update(15, u as u8)[15] == u as u8);
                        assert(false);
                    }
                }
            }
            if hit {
                recovered.push(u as u8);
                found = true;
                proof {
                    assert(recovered@ =~= suf.take(i + 1));
                }
            }
            u += 1;
        }
        if !found {
            proof {
                assert(false);
            }
            return Err(Error::OracleInconsistent);
        }
        i += 1;
    }
    proof {
        assert(recovered@ =~= suf);
    }
    Ok(recovered)
}

/// Detect ECB by encrypting three identical blocks: under ECB the second
/// and third ciphertext blocks coincide even behind up to one block of
/// hidden prefix; under CBC the answer is exactly that same block
/// comparison on the CBC ciphertext, which coincides only by accident.
pub fn uses_ecb(oracle: &ModeOracle) -> (r: Result<bool, Error>)
    requires
        oracle.m_wf(),
    ensures
        r is Ok,
        oracle.mode() == Mode::Ecb ==> r == Ok::<bool, Error>(true),
        oracle.mode() == Mode::Cbc ==> (forall|c: Seq<u8>|
            cbc_blocks_ok(
                oracle.m_key(),
                oracle.m_iv(),
                spec_pad(oracle.m_prefix() + zeros(48), 16),
                c,
            ) ==> r == Ok::<bool, Error>(block_of(c, 1) == block_of(c, 2))),
{
    let input = const_vec(0, 48);
    proof {
        assert(input@ =~= zeros(48));
    }
    let c = match oracle.encrypt(input.as_slice()) {
        Ok(c) => c,
        Err(e) => {
            proof {
                assert(false);
            }
            return Err(e);
        },
    };
    let ghost m = spec_pad(oracle.m_prefix() + input@, 16);
    proof {
        lemma_padded_len((oracle.m_prefix() + input@).len(), 16);
        crate::probe::lemma_padded_len_at_least((oracle.m_prefix() + input@).len(), 3);
        vstd::arithmetic::div_mod::lemma_fundamental_div_mod(m.len() as int, 16);
        if oracle.mode() == Mode::Ecb {
            assert(block_of(m, 1) =~= block_of(m, 2)) by {
                assert forall|t: int| 0 <= t < 16 implies block_of(m, 1)[t] == block_of(m, 2)[t]
                    by {
                    assert(m[16 + t] == input@[16 + t - oracle.m_prefix().len()]);
                    assert(m[32 + t] == input@[32 + t - oracle.m_prefix().len()]);
                }
            };
        }
    }
    let r = blocks_equal(c.as_slice(), 1, c.as_slice(), 2);
    proof {
        if oracle.mode() == Mode::Cbc {
            // The first three CBC ciphertext blocks are determined by the
            // key, the IV and the message, so any conforming ciphertext
            // agrees with the observed one on the compared blocks.
            assert forall|c2: Seq<u8>|
                cbc_blocks_ok(oracle.m_key(), oracle.m_iv(), m, c2) implies block_of(c2, 1)
                == block_of(c@, 1) && block_of(c2, 2) == block_of(c@, 2) by {
                let key = oracle.m_key();
                let iv = oracle.m_iv();
                assert(m.len() as int / 16 >= 3);
                assert(block_of(c2, 0) == aes_block(key, spec_xor(cbc_prev(iv, c2, 0), block_of(m, 0))));
                assert(block_of(c@, 0) == aes_block(key, spec_xor(cbc_prev(iv, c@, 0), block_of(m, 0))));
                assert(block_of(c2, 0) == block_of(c@, 0));
                assert(cbc_prev(iv, c2, 1) == cbc_prev(iv, c@, 1));
                assert(block_of(c2, 1) == block_of(c@, 1));
                assert(cbc_prev(iv, c2, 2) == cbc_prev(iv, c@, 2));
                assert(block_of(c2, 2) == block_of(c@, 2));
            }
        }
    }
    Ok(r)
}

/// Run the ECB detector against a mode oracle and test its answer: an
/// ECB oracle is always identified; a CBC oracle is misidentified exactly
/// when the two probed ciphertext blocks happen to coincide.
pub fn matasano2_11(oracle: &ModeOracle) -> (r: Result<(), Error>)
    requires
        oracle.m_wf(),
    ensures
        oracle.mode() == Mode::Ecb ==> r is Ok,
        oracle.mode() == Mode::Cbc ==> (forall|c: Seq<u8>|
            cbc_blocks_ok(
                oracle.m_key(),
                oracle.m_iv(),
                spec_pad(oracle.m_prefix() + zeros(48), 16),
                c,
            ) ==> (r is Ok <==> block_of(c, 1) != block_of(c, 2))),
{
    let guess = match uses_ecb(oracle) {
        Ok(g) => g,
        Err(e) => {
            proof {
                assert(false);
            }
            return Err(e);
        },
    };
    let r = oracle.verify_solution(guess);
    proof {
        if oracle.mode() == Mode::Cbc {
            assert forall|c: Seq<u8>|
                cbc_blocks_ok(
                    oracle.m_key(),
                    oracle.m_iv(),
                    spec_pad(oracle.m_prefix() + zeros(48), 16),
                    c,
                ) implies (r is Ok <==> block_of(c, 1) != block_of(c, 2)) by {
                assert(guess == (block_of(c, 1) == block_of(c, 2)));
            }
        }
    }
    r
}

/// Recover the hidden suffix of a suffix-only oracle and verify it.
pub fn matasano2_12(secret: Vec<u8>) -> (r: Result<(), Error>)
    requires
        secret@.len() <= MAX_SECRET,
    ensures
        r is Ok,
{
    let ghost sec = secret@;
    let oracle = EcbOracle::new(secret);
    let recovered = match decrypt_suffix(&oracle) {
        Ok(v) => v,
        Err(e) => {
            proof {
                assert(false);
            }
            return Err(e);
        },
    };
    oracle.verify_suffix(recovered.as_slice())
}

/// Recover the hidden suffix of a prefix-and-suffix oracle and verify it.
pub fn matasano2_14(prefix_len: usize, secret: Vec<u8>) -> (r: Result<(), Error>)
    requires
        prefix_len <= MAX_SECRET,
        secret@.len() <= MAX_SECRET,
    ensures
        r is Ok,
{
    let ghost sec = secret@;
    let oracle = EcbOracle::with_random_prefix(prefix_len, secret);
    let recovered = match decrypt_suffix(&oracle) {
        Ok(v) => v,
        Err(e) => {
            proof {
                assert(false);
            }
            return Err(e);
        },
    };
    oracle.verify_suffix(recovered.as_slice())
}

} // verus!
