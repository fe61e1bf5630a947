//! The length prober: discovers the byte lengths of an oracle's hidden
//! prefix and suffix purely from ciphertext observations.

use vstd::prelude::*;

use crate::cipher::{aes_block, aes_unblock, block_of, blocks_equal, ecb_blocks_ok};
use crate::errors::Error;
use crate::oracle::{DeterministicOracle, Oracle, MAX_SECRET};
use crate::padding::{lemma_padded_len, padded_len, spec_pad};

verus! {

/// A vector of `len` copies of the byte `k`.
pub fn const_vec(k: u8, len: usize) -> (r: Vec<u8>)
    ensures
        r@ == Seq::new(len as nat, |i: int| k),
        r@.len() == len,
{
    let mut r: Vec<u8> = Vec::new();
    let mut i: usize = 0;
    while i < len
        invariant
            i <= len,
            r@ == Seq::new(i as nat, |t: int| k),
        decreases len - i,
    {
        r.push(k);
        proof {
            assert(r@ =~= Seq::new((i + 1) as nat, |t: int| k));
        }
        i += 1;
    }
    r
}

/// Padding to the next block boundary jumps exactly when the input grows
/// past a multiple of the block size.
proof fn lemma_padded_jump(h: nat, i: nat)
    requires
        1 <= i <= 16,
    ensures
        (padded_len(h + i, 16) == padded_len(h, 16)) <==> (h % 16 + i < 16),
        h % 16 + i == 16 ==> padded_len(h + i, 16) == padded_len(h, 16) + 16,
{
    let q = h as int / 16;
    let s = h as int % 16;
    vstd::arithmetic::div_mod::lemma_fundamental_div_mod(h as int, 16);
    if s + i < 16 {
        vstd::arithmetic::div_mod::lemma_fundamental_div_mod_converse_div(
            h + i as int,
            16,
            q,
            s + i,
        );
    } else {
        vstd::arithmetic::div_mod::lemma_fundamental_div_mod_converse_div(
            h + i as int,
            16,
            q + 1,
            s + i - 16,
        );
        assert((q + 1 + 1) * 16 == (q + 1) * 16 + 16) by (nonlinear_arith);
    }
}

/// A sequence at least `16 * n` long pads to at least `n + 1` whole blocks.
pub proof fn lemma_padded_len_at_least(x: nat, n: nat)
    requires
        x >= 16 * n,
    ensures
        padded_len(x, 16) >= 16 * n + 16,
        padded_len(x, 16) as int / 16 >= n + 1,
        padded_len(x, 16) % 16 == 0,
{
    lemma_padded_len(x, 16);
    vstd::arithmetic::div_mod::lemma_fundamental_div_mod(x as int, 16);
    let q = x as int / 16;
    assert(q >= n) by {
        if q < n {
            assert(q * 16 <= (n - 1) * 16) by (nonlinear_arith)
                requires
                    q <= n - 1,
            ;
            assert((n - 1) * 16 == 16 * n - 16) by (nonlinear_arith);
        }
    };
    assert((q + 1) * 16 >= 16 * n + 16) by (nonlinear_arith)
        requires
            q >= n,
    ;
    vstd::arithmetic::div_mod::lemma_fundamental_div_mod_converse_div(
        (q + 1) * 16,
        16,
        q + 1,
        0,
    );
}

/// Find the total hidden length: grow the input from zero until the output
/// length jumps one block; the hidden length is the initial output length
/// minus the input growth that caused the jump.
pub fn prefix_plus_suffix_length<T: Oracle>(oracle: &T) -> (r: Result<usize, Error>)
    requires
        oracle.o_wf(),
    ensures
        r matches Ok(n) && n == oracle.hidden_len(),
{
    let ghost h = oracle.hidden_len();
    let empty: Vec<u8> = Vec::new();
    let initial = match oracle.encrypt(empty.as_slice()) {
        Ok(c) => c.len(),
        Err(e) => {
            proof {
                assert(false);
            }
            return Err(e);
        },
    };
    proof {
        assert(initial == padded_len(h, 16));
        lemma_padded_len(h, 16);
        vstd::arithmetic::div_mod::lemma_fundamental_div_mod(h as int, 16);
        assert((h as int / 16 + 1) * 16 >= 16) by (nonlinear_arith)
            requires
                h as int / 16 >= 0,
        ;
    }
    let mut i: usize = 1;
    while i <= 16
        invariant
            1 <= i <= 17,
            oracle.o_wf(),
            h == oracle.hidden_len(),
            initial == padded_len(h, 16),
            initial >= 16,
            h % 16 + i <= 16,
        decreases 17 - i,
    {
        let input = const_vec(0, i);
        let c = match oracle.encrypt(input.as_slice()) {
            Ok(c) => c,
            Err(e) => {
                proof {
                    assert(false);
                }
                return Err(e);
            },
        };
        proof {
            lemma_padded_jump(h, i as nat);
        }
        if c.len() != initial {
            proof {
                assert(h % 16 + i == 16);
                vstd::arithmetic::div_mod::lemma_fundamental_div_mod(h as int, 16);
                assert((h as int / 16 + 1) * 16 == h as int / 16 * 16 + 16) by (nonlinear_arith);
            }
            return Ok(initial - i);
        }
        i += 1;
    }
    proof {
        assert(false);
    }
    Err(Error::OracleInconsistent)
}

/// Count the blocks fully occupied by the hidden prefix: encrypt two
/// one-byte inputs that differ and find the first differing output block.
pub fn prefix_blocks_count<T: DeterministicOracle>(oracle: &T) -> (r: Result<usize, Error>)
    requires
        oracle.o_wf(),
    ensures
        r matches Ok(n) && n == oracle.prefix().len() as int / 16,
{
    proof {
        oracle.wf_facts();
    }
    let ghost key = oracle.key();
    let ghost pre = oracle.prefix();
    let ghost suf = oracle.suffix();
    let ghost p = pre.len() as int;
    let ghost pdiv = p / 16;
    let in0 = const_vec(0, 1);
    let in1 = const_vec(1, 1);
    let c1 = match oracle.det_encrypt(in0.as_slice()) {
        Ok(c) => c,
        Err(e) => {
            proof {
                assert(false);
            }
            return Err(e);
        },
    };
    let c2 = match oracle.det_encrypt(in1.as_slice()) {
        Ok(c) => c,
        Err(e) => {
            proof {
                assert(false);
            }
            return Err(e);
        },
    };
    let ghost m1 = spec_pad(pre + in0@ + suf, 16);
    let ghost m2 = spec_pad(pre + in1@ + suf, 16);
    proof {
        vstd::arithmetic::div_mod::lemma_fundamental_div_mod(p, 16);
        assert(16 * pdiv <= p);
        lemma_padded_len((p + 1 + suf.len()) as nat, 16);
        lemma_padded_len_at_least((p + 1 + suf.len()) as nat, pdiv as nat);
        assert(m1.len() == m2.len());
        assert(m1.len() % 16 == 0);
        assert forall|idx: int| 0 <= idx < m1.len() && idx != p implies m1[idx] == m2[idx] by {
            assert(in0@.len() == 1 && in1@.len() == 1);
        }
        assert(m1[p] == 0 && m2[p] == 1);
    }
    let nb = c1.len() / 16;
    proof {
        vstd::arithmetic::div_mod::lemma_fundamental_div_mod(m1.len() as int, 16);
    }
    let mut j: usize = 0;
    while j < nb
        invariant
            j <= pdiv,
            oracle.o_wf(),
            key == oracle.key(),
            pre == oracle.prefix(),
            p == pre.len(),
            pdiv == p / 16,
            16 * pdiv <= p < m1.len(),
            ecb_blocks_ok(key, m1, c1@),
            ecb_blocks_ok(key, m2, c2@),
            m1.len() == m2.len(),
            m1.len() == 16 * (m1.len() as int / 16),
            nb == m1.len() as int / 16,
            pdiv < nb,
            m1[p] == 0 && m2[p] == 1,
            forall|idx: int| 0 <= idx < m1.len() && idx != p ==> m1[idx] == m2[idx],
        decreases nb - j,
    {
        proof {
            assert(16 * j + 16 <= m1.len()) by (nonlinear_arith)
                requires
                    j < nb,
                    m1.len() == 16 * nb,
            ;
        }
        if !blocks_equal(c1.as_slice(), j, c2.as_slice(), j) {
            proof {
                if j < pdiv {
                    assert(block_of(m1, j as int) =~= block_of(m2, j as int)) by {
                        assert forall|t: int| 0 <= t < 16 implies block_of(m1, j as int)[t]
                            == block_of(m2, j as int)[t] by {
                            assert(16 * j + t < 16 * pdiv) by (nonlinear_arith)
                                requires
                                    j < pdiv,
                                    t < 16,
                            ;
                        }
                    };
                    assert(block_of(c1@, j as int) == block_of(c2@, j as int));
                    assert(false);
                }
            }
            return Ok(j);
        }
        proof {
            if j == pdiv {
                assert(aes_unblock(key, block_of(c1@, j as int)) == block_of(m1, j as int));
                assert(aes_unblock(key, block_of(c2@, j as int)) == block_of(m2, j as int));
                assert(block_of(m1, j as int)[p - 16 * pdiv] == m1[p]);
                assert(block_of(m2, j as int)[p - 16 * pdiv] == m2[p]);
                assert(false);
            }
        }
        j += 1;
    }
    proof {
        assert(false);
    }
    Err(Error::OracleInconsistent)
}

/// The first hidden byte behind an attacker-filled block: the suffix's
/// first byte, or the one-byte padding that an empty suffix produces.
pub open spec fn next_hidden_byte(suffix: Seq<u8>) -> u8 {
    if suffix.len() > 0 {
        suffix[0]
    } else {
        1u8
    }
}

/// The block at the prefix boundary when the attacker fills it entirely
/// with the constant `k`.
pub open spec fn stable_block(pre: Seq<u8>, k: u8) -> Seq<u8> {
    Seq::new(
        16,
        |t: int|
            if t < pre.len() % 16 {
                pre[16 * (pre.len() as int / 16) + t]
            } else {
                k
            },
    )
}

/// With a constant run long enough to fill the boundary block, the block's
/// plaintext is the prefix tail followed by the constant alone.
proof fn lemma_stable_block(pre: Seq<u8>, suf: Seq<u8>, k: u8, m: nat)
    requires
        m <= 16,
        pre.len() % 16 + m >= 16,
    ensures
        spec_pad(pre + Seq::new(m, |t: int| k) + suf, 16).len() >= 16 * (pre.len() as int / 16)
            + 16,
        block_of(spec_pad(pre + Seq::new(m, |t: int| k) + suf, 16), pre.len() as int / 16)
            == stable_block(pre, k),
{
    let p = pre.len() as int;
    let n = p / 16;
    let q = p % 16;
    let msg = pre + Seq::new(m, |t: int| k) + suf;
    let big = spec_pad(msg, 16);
    vstd::arithmetic::div_mod::lemma_fundamental_div_mod(p, 16);
    lemma_padded_len(msg.len(), 16);
    lemma_padded_len_at_least(msg.len(), n as nat);
    assert forall|t: int| 0 <= t < 16 implies big[16 * n + t] == stable_block(pre, k)[t] by {
        assert(16 * n + t < p + m);
        if t < q {
            assert(16 * n + t < p);
        }
    }
    assert(block_of(big, n) =~= stable_block(pre, k));
}

/// With a constant run one byte short of filling the boundary block, the
/// block's plaintext ends in the first hidden byte behind the run.
proof fn lemma_boundary_block(pre: Seq<u8>, suf: Seq<u8>, k: u8)
    requires
        pre.len() % 16 <= 15,
    ensures
        spec_pad(
            pre + Seq::new((15 - pre.len() % 16) as nat, |t: int| k) + suf,
            16,
        ).len() >= 16 * (pre.len() as int / 16) + 16,
        block_of(
            spec_pad(pre + Seq::new((15 - pre.len() % 16) as nat, |t: int| k) + suf, 16),
            pre.len() as int / 16,
        ) == stable_block(pre, k).update(15, next_hidden_byte(suf)),
{
    let p = pre.len() as int;
    let n = p / 16;
    let q = p % 16;
    let m = 15 - q;
    let msg = pre + Seq::new(m as nat, |t: int| k) + suf;
    let big = spec_pad(msg, 16);
    vstd::arithmetic::div_mod::lemma_fundamental_div_mod(p, 16);
    lemma_padded_len(msg.len(), 16);
    lemma_padded_len_at_least(msg.len(), n as nat);
    assert(msg.len() == 16 * n + 15 + suf.len());
    assert forall|t: int| 0 <= t < 16 implies big[16 * n + t] == stable_block(pre, k).update(
        15,
        next_hidden_byte(suf),
    )[t] by {
        if t < q {
            assert(16 * n + t < p);
        } else if t < 15 {
            assert(16 * n + t - p == t - q);
            assert(16 * n + t < p + m);
        } else {
            assert(16 * n + 15 == p + m);
            if suf.len() > 0 {
                assert(big[16 * n + t] == suf[0]);
            } else {
                assert(msg.len() == 16 * n + 15);
                vstd::arithmetic::div_mod::lemma_fundamental_div_mod_converse_mod(
                    16 * n + 15,
                    16,
                    n,
                    15,
                );
                assert(big[16 * n + t] == (16 - msg.len() % 16) as u8);
            }
        }
    }
    assert(block_of(big, n) =~= stable_block(pre, k).update(15, next_hidden_byte(suf)));
}

/// Fill the boundary block with a constant and shrink the run one byte at
/// a time until the block's ciphertext changes; the shrink amount at the
/// change is the prefix's offset into the block, unless the first hidden
/// byte happens to equal the constant.
pub fn shrink_probe<T: DeterministicOracle>(oracle: &T, n: usize, k: u8) -> (r: Result<
    usize,
    Error,
>)
    requires
        oracle.o_wf(),
        n == oracle.prefix().len() as int / 16,
    ensures
        r matches Ok(i) && ({
            let q = oracle.prefix().len() % 16;
            &&& q <= i <= 16
            &&& (next_hidden_byte(oracle.suffix()) != k ==> i == q)
        }),
{
    proof {
        oracle.wf_facts();
    }
    let ghost key = oracle.key();
    let ghost pre = oracle.prefix();
    let ghost suf = oracle.suffix();
    let ghost p = pre.len() as int;
    let ghost q = pre.len() % 16;
    let ghost nhb = next_hidden_byte(suf);
    proof {
        vstd::arithmetic::div_mod::lemma_fundamental_div_mod(p, 16);
    }
    let full = const_vec(k, 16);
    let mut prev = match oracle.det_encrypt(full.as_slice()) {
        Ok(c) => c,
        Err(e) => {
            proof {
                assert(false);
            }
            return Err(e);
        },
    };
    let mut i: usize = 0;
    while i < 16
        invariant
            i <= 16,
            oracle.o_wf(),
            key == oracle.key(),
            pre == oracle.prefix(),
            suf == oracle.suffix(),
            p == pre.len(),
            q == pre.len() % 16,
            n == p / 16,
            16 * (p / 16) + q == p,
            0 <= q < 16,
            nhb == next_hidden_byte(suf),
            nhb != k ==> i <= q,
            ecb_blocks_ok(
                key,
                spec_pad(pre + Seq::new((16 - i) as nat, |t: int| k) + suf, 16),
                prev@,
            ),
        decreases 16 - i,
    {
        let cur_in = const_vec(k, 15 - i);
        let cur = match oracle.det_encrypt(cur_in.as_slice()) {
            Ok(c) => c,
            Err(e) => {
                proof {
                    assert(false);
                }
                return Err(e);
            },
        };
        let ghost mprev = spec_pad(pre + Seq::new((16 - i) as nat, |t: int| k) + suf, 16);
        let ghost mcur = spec_pad(pre + Seq::new((15 - i) as nat, |t: int| k) + suf, 16);
        proof {
            lemma_padded_len(
                (pre + Seq::new((16 - i) as nat, |t: int| k) + suf).len(),
                16,
            );
            lemma_padded_len_at_least(
                (pre + Seq::new((16 - i) as nat, |t: int| k) + suf).len(),
                n as nat,
            );
            lemma_padded_len(
                (pre + Seq::new((15 - i) as nat, |t: int| k) + suf).len(),
                16,
            );
            lemma_padded_len_at_least(
                (pre + Seq::new((15 - i) as nat, |t: int| k) + suf).len(),
                n as nat,
            );
            vstd::arithmetic::div_mod::lemma_fundamental_div_mod(mprev.len() as int, 16);
            vstd::arithmetic::div_mod::lemma_fundamental_div_mod(mcur.len() as int, 16);
        }
        if !blocks_equal(prev.as_slice(), n, cur.as_slice(), n) {
            proof {
                if i < q {
                    lemma_stable_block(pre, suf, k, (16 - i) as nat);
                    lemma_stable_block(pre, suf, k, (15 - i) as nat);
                    assert(block_of(prev@, n as int) == aes_block(key, stable_block(pre, k)));
                    assert(block_of(cur@, n as int) == aes_block(key, stable_block(pre, k)));
                    assert(false);
                }
            }
            return Ok(i);
        }
        proof {
            if i == q {
                lemma_stable_block(pre, suf, k, (16 - i) as nat);
                lemma_boundary_block(pre, suf, k);
                assert(aes_unblock(key, block_of(prev@, n as int)) == stable_block(pre, k));
                assert(aes_unblock(key, block_of(cur@, n as int)) == stable_block(pre, k).update(
                    15,
                    nhb,
                ));
                assert(stable_block(pre, k)[15] == k);
                assert(stable_block(pre, k).update(15, nhb)[15] == nhb);
                if nhb != k {
                    assert(block_of(prev@, n as int) != block_of(cur@, n as int));
                    assert(false);
                }
            }
        }
        prev = cur;
        i += 1;
    }
    Ok(16)
}

/// Byte-exact prefix length: the number of fully occupied prefix blocks
/// plus the smaller of two shrink probes run with different constants (the
/// first hidden byte can coincide with one constant, but not with both).
pub fn prefix_length<T: DeterministicOracle>(oracle: &T) -> (r: Result<usize, Error>)
    requires
        oracle.o_wf(),
    ensures
        r matches Ok(pl) && pl == oracle.prefix().len(),
{
    proof {
        oracle.wf_facts();
    }
    let n = match prefix_blocks_count(oracle) {
        Ok(n) => n,
        Err(e) => {
            proof {
                assert(false);
            }
            return Err(e);
        },
    };
    let i0 = match shrink_probe(oracle, n, 0) {
        Ok(i) => i,
        Err(e) => {
            proof {
                assert(false);
            }
            return Err(e);
        },
    };
    let i1 = match shrink_probe(oracle, n, 1) {
        Ok(i) => i,
        Err(e) => {
            proof {
                assert(false);
            }
            return Err(e);
        },
    };
    let off = if i0 < i1 {
        i0
    } else {
        i1
    };
    proof {
        let p = oracle.prefix().len() as int;
        vstd::arithmetic::div_mod::lemma_fundamental_div_mod(p, 16);
        assert(off == p % 16);
        assert(16 * n <= p <= MAX_SECRET);
    }
    Ok(n * 16 + off)
}

/// The hidden suffix's byte length: total hidden length minus prefix length.
pub fn suffix_length<T: DeterministicOracle>(oracle: &T) -> (r: Result<usize, Error>)
    requires
        oracle.o_wf(),
    ensures
        r matches Ok(sl) && sl == oracle.suffix().len(),
{
    proof {
        oracle.wf_facts();
    }
    let total = match prefix_plus_suffix_length(oracle) {
        Ok(t) => t,
        Err(e) => {
            proof {
                assert(false);
            }
            return Err(e);
        },
    };
    let plen = match prefix_length(oracle) {
        Ok(p) => p,
        Err(e) => {
            proof {
                assert(false);
            }
            return Err(e);
        },
    };
    Ok(total - plen)
}

} // verus!
