//! The CBC bit-flipping attack: a cookie oracle that CBC-encrypts attacker
//! input between hidden fields, and the forgery that xors a chosen
//! difference into one ciphertext block so that the next block decrypts to
//! an admin marker.

use vstd::prelude::*;

use crate::cipher::{
    aes_unblock, block_of, cbc_blocks_ok, cbc_decrypt_blocks, cbc_encrypt_blocks, cbc_prev,
    spec_cbc_dec, spec_xor, xor, xor_into_block,
};
use crate::errors::Error;
use crate::oracle::{Oracle, MAX_INPUT, MAX_SECRET};
use crate::padding::{lemma_padded_len, pad, spec_pad};
use crate::probe::{const_vec, prefix_plus_suffix_length};
use crate::rng::random_bytes;

verus! {

/// The marker whose appearance in the decryption the oracle checks for:
/// the bytes of `;admin=true`.
pub open spec fn admin_marker() -> Seq<u8> {
    seq![59u8, 97u8, 100u8, 109u8, 105u8, 110u8, 61u8, 116u8, 114u8, 117u8, 101u8]
}

/// The marker as a vector.
fn admin_marker_bytes() -> (r: Vec<u8>)
    ensures
        r@ == admin_marker(),
{
    let mut r: Vec<u8> = Vec::new();
    r.push(59);
    r.push(97);
    r.push(100);
    r.push(109);
    r.push(105);
    r.push(110);
    r.push(61);
    r.push(116);
    r.push(114);
    r.push(117);
    r.push(101);
    proof {
        assert(r@ =~= admin_marker());
    }
    r
}

/// `needle` occurs somewhere inside `hay`.
pub open spec fn contains_seq(hay: Seq<u8>, needle: Seq<u8>) -> bool {
    exists|i: int|
        0 <= i && i + needle.len() <= hay.len() && #[trigger] hay.subrange(i, i + needle.len())
            == needle
}

/// Compare `hay[at .. at + needle.len()]` with `needle`.
fn range_equals(hay: &[u8], at: usize, needle: &[u8]) -> (r: bool)
    requires
        at + needle@.len() <= hay@.len(),
    ensures
        r == (hay@.subrange(at as int, at + needle@.len()) == needle@),
{
    let nn = needle.len();
    let hn = hay.len();
    let mut t: usize = 0;
    while t < nn
        invariant
            t <= nn == needle@.len(),
            at + nn <= hn == hay@.len(),
            forall|u: int| 0 <= u < t ==> hay@[at + u] == needle@[u],
        decreases nn - t,
    {
        if hay[at + t] != needle[t] {
            proof {
                assert(hay@.subrange(at as int, at + needle@.len())[t as int] != needle@[t as int]);
            }
            return false;
        }
        t += 1;
    }
    proof {
        assert(hay@.subrange(at as int, at + needle@.len()) =~= needle@);
    }
    true
}

/// Scan for an occurrence of `needle` inside `hay`.
fn find_subseq(hay: &[u8], needle: &[u8]) -> (r: bool)
    requires
        needle@.len() >= 1,
    ensures
        r == contains_seq(hay@, needle@),
{
    let hn = hay.len();
    let nn = needle.len();
    if hn < nn {
        proof {
            if contains_seq(hay@, needle@) {
                let i = choose|i: int|
                    0 <= i && i + needle@.len() <= hay@.len() && (#[trigger] hay@.subrange(
                        i,
                        i + needle@.len(),
                    )) == needle@;
                assert(false);
            }
        }
        return false;
    }
    let mut i: usize = 0;
    while i <= hn - nn
        invariant
            nn >= 1,
            nn <= hn,
            nn == needle@.len(),
            hn == hay@.len(),
            i <= hn - nn + 1,
            forall|w: int|
                0 <= w < i ==> (#[trigger] hay@.subrange(w, w + needle@.len())) != needle@,
        decreases hn - nn - i + 1,
    {
        if range_equals(hay, i, needle) {
            return true;
        }
        i += 1;
    }
    proof {
        if contains_seq(hay@, needle@) {
            let w = choose|w: int|
                0 <= w && w + needle@.len() <= hay@.len() && (#[trigger] hay@.subrange(
                    w,
                    w + needle@.len(),
                )) == needle@;
            assert(w < i);
            assert(false);
        }
    }
    false
}

/// The CBC cookie oracle: encrypts `prefix ++ input ++ suffix` under CBC
/// with a fixed key and IV, and verifies a ciphertext by decrypting it and
/// looking for the embedded admin marker.
pub struct CbcCookieOracle {
    key: Vec<u8>,
    iv: Vec<u8>,
    prefix: Vec<u8>,
    suffix: Vec<u8>,
}

impl CbcCookieOracle {
    /// The construction-time invariant: a block of key and IV, hidden
    /// material of bounded length, at least one hidden prefix byte.
    pub closed spec fn c_wf(&self) -> bool {
        &&& self.key@.len() == 16
        &&& self.iv@.len() == 16
        &&& 1 <= self.prefix@.len() <= MAX_SECRET
        &&& self.suffix@.len() <= MAX_SECRET
    }

    /// The hidden key.
    pub closed spec fn c_key(&self) -> Seq<u8> {
        self.key@
    }

    /// The fixed initialization vector.
    pub closed spec fn c_iv(&self) -> Seq<u8> {
        self.iv@
    }

    /// The hidden prefix laid before the attacker input.
    pub closed spec fn c_prefix(&self) -> Seq<u8> {
        self.prefix@
    }

    /// The hidden suffix appended after the attacker input.
    pub closed spec fn c_suffix(&self) -> Seq<u8> {
        self.suffix@
    }

    /// Construct from explicit secret material.
    pub fn with_secrets(key: Vec<u8>, iv: Vec<u8>, prefix: Vec<u8>, suffix: Vec<u8>) -> (r: Self)
        requires
            key@.len() == 16,
            iv@.len() == 16,
            1 <= prefix@.len() <= MAX_SECRET,
            suffix@.len() <= MAX_SECRET,
        ensures
            r.c_wf(),
            r.c_key() == key@,
            r.c_iv() == iv@,
            r.c_prefix() == prefix@,
            r.c_suffix() == suffix@,
    {
        CbcCookieOracle { key, iv, prefix, suffix }
    }

    /// A fresh oracle over the given hidden fields, under a random key
    /// and a random IV.
    pub fn new(prefix: Vec<u8>, suffix: Vec<u8>) -> (r: Self)
        requires
            1 <= prefix@.len() <= MAX_SECRET,
            suffix@.len() <= MAX_SECRET,
        ensures
            r.c_wf(),
            r.c_prefix() == prefix@,
            r.c_suffix() == suffix@,
    {
        let key = random_bytes(16);
        let iv = random_bytes(16);
        CbcCookieOracle { key, iv, prefix, suffix }
    }

    /// CBC-encrypt `prefix ++ input ++ suffix`.
    pub fn cookie_encrypt(&self, input: &[u8]) -> (r: Result<Vec<u8>, Error>)
        requires
            self.c_wf(),
            input@.len() <= MAX_INPUT,
        ensures
            r matches Ok(c) && cbc_blocks_ok(
                self.c_key(),
                self.c_iv(),
                spec_pad(self.c_prefix() + input@ + self.c_suffix(), 16),
                c@,
            ),
    {
        let mut m: Vec<u8> = Vec::new();
        m.extend_from_slice(self.prefix.as_slice());
        m.extend_from_slice(input);
        m.extend_from_slice(self.suffix.as_slice());
        proof {
            assert(m@ == self.c_prefix() + input@ + self.c_suffix());
        }
        let padded = pad(m.as_slice(), 16);
        proof {
            lemma_padded_len(m@.len(), 16);
        }
        let c = cbc_encrypt_blocks(self.key.as_slice(), self.iv.as_slice(), padded.as_slice());
        Ok(c)
    }

    /// Succeeds exactly when the admin marker appears in the ciphertext's
    /// CBC decryption.
    pub fn verify_solution(&self, ct: &[u8]) -> (r: Result<(), Error>)
        requires
            self.c_wf(),
            ct@.len() % 16 == 0,
        ensures
            r is Ok <==> contains_seq(
                spec_cbc_dec(self.c_key(), self.c_iv(), ct@),
                admin_marker(),
            ),
            r is Err ==> r == Err::<(), Error>(Error::VerificationMismatch),
    {
        let dec = cbc_decrypt_blocks(self.key.as_slice(), self.iv.as_slice(), ct);
        let marker = admin_marker_bytes();
        if find_subseq(dec.as_slice(), marker.as_slice()) {
            Ok(())
        } else {
            Err(Error::VerificationMismatch)
        }
    }
}

impl Oracle for CbcCookieOracle {
    closed spec fn o_wf(&self) -> bool {
        self.c_wf()
    }

    closed spec fn hidden_len(&self) -> nat {
        self.prefix@.len() + self.suffix@.len()
    }

    fn encrypt(&self, input: &[u8]) -> (r: Result<Vec<u8>, Error>) {
        let c = self.cookie_encrypt(input);
        proof {
            lemma_padded_len((self.c_prefix() + input@ + self.c_suffix()).len(), 16);
        }
        c
    }
}

/// Forge a ciphertext whose decryption embeds the admin marker: align the
/// hidden material to a block boundary, then xor the difference between
/// the padding block and the padded marker into the preceding ciphertext
/// block; CBC decryption applies that difference to the padding block.
pub fn flip_admin_cookie(oracle: &CbcCookieOracle) -> (r: Result<(), Error>)
    requires
        oracle.c_wf(),
    ensures
        r is Ok,
{
    let h = match prefix_plus_suffix_length(oracle) {
        Ok(v) => v,
        Err(e) => {
            proof {
                assert(false);
            }
            return Err(e);
        },
    };
    let blocks = (h + 15) / 16;
    let padding = blocks * 16 - h;
    proof {
        vstd::arithmetic::div_mod::lemma_fundamental_div_mod(h + 15, 16);
        vstd::arithmetic::div_mod::lemma_mod_division_less_than_divisor(h + 15, 16);
        assert(blocks * 16 == h + 15 - ((h + 15) % 16));
        assert(0 <= padding < 16);
        assert(h + padding == 16 * blocks);
        assert(blocks >= 1);
    }
    let input = const_vec(0, padding);
    let ghost m = spec_pad(oracle.c_prefix() + input@ + oracle.c_suffix(), 16);
    let ct = match oracle.cookie_encrypt(input.as_slice()) {
        Ok(c) => c,
        Err(e) => {
            proof {
                assert(false);
            }
            return Err(e);
        },
    };
    proof {
        lemma_padded_len((oracle.c_prefix() + input@ + oracle.c_suffix()).len(), 16);
        vstd::arithmetic::div_mod::lemma_mod_multiples_basic(blocks as int, 16);
        assert(m.len() == 16 * blocks + 16);
        vstd::arithmetic::div_mod::lemma_fundamental_div_mod_converse_div(
            16 * blocks as int + 16,
            16,
            blocks as int + 1,
            0,
        );
        assert(m.len() as int / 16 == blocks + 1);
        // The message's final block is sixteen padding bytes of value 16.
        assert(block_of(m, blocks as int) =~= Seq::new(16, |u: int| 16u8));
    }
    let marker = admin_marker_bytes();
    let target = pad(marker.as_slice(), 16);
    proof {
        lemma_padded_len(11, 16);
        assert(target@.len() == 16);
    }
    let current = const_vec(16, 16);
    let delta = xor(target.as_slice(), current.as_slice());
    let forged = xor_into_block(ct.as_slice(), blocks - 1, delta.as_slice());
    let ghost key = oracle.c_key();
    let ghost iv = oracle.c_iv();
    proof {
        let b = blocks as int;
        let dec = spec_cbc_dec(key, iv, forged@);
        assert(ct@.len() == 16 * b + 16);
        assert(forged@.len() == 16 * b + 16);
        assert(forged@.len() % 16 == 0) by {
            vstd::arithmetic::div_mod::lemma_fundamental_div_mod_converse_mod(
                16 * b + 16,
                16,
                b + 1,
                0,
            );
        };
        // The flipped block is the previous ciphertext block xored with
        // the chosen difference; the marker block itself is untouched.
        assert(block_of(forged@, b) =~= block_of(ct@, b));
        assert(block_of(forged@, b - 1) =~= spec_xor(block_of(ct@, b - 1), delta@));
        // CBC decryption of the final block applies the difference to the
        // all-16s padding block, yielding the padded marker.
        assert(aes_unblock(key, block_of(ct@, b)) == spec_xor(
            cbc_prev(iv, ct@, b),
            block_of(m, b),
        ));
        assert(cbc_prev(iv, ct@, b) == block_of(ct@, b - 1));
        assert forall|u: int| 0 <= u < 11 implies dec[16 * b + u] == admin_marker()[u] by {
            let t = 16 * b + u;
            vstd::arithmetic::div_mod::lemma_fundamental_div_mod_converse_div(t, 16, b, u);
            vstd::arithmetic::div_mod::lemma_fundamental_div_mod_converse_mod(t, 16, b, u);
            assert(dec[t] == spec_xor(
                cbc_prev(iv, forged@, b),
                aes_unblock(key, block_of(forged@, b)),
            )[u]);
            let a = block_of(ct@, b - 1)[u];
            let tu = target@[u];
            assert(delta@[u] == tu ^ 16);
            assert(block_of(m, b)[u] == 16);
            assert(dec[t] == (a ^ (tu ^ 16)) ^ (a ^ 16));
            assert((a ^ (tu ^ 16)) ^ (a ^ 16) == tu) by (bit_vector);
            assert(target@[u] == admin_marker()[u]);
        }
        assert(dec.subrange(16 * b, 16 * b + 11) =~= admin_marker());
        assert(16 * b + 11 <= dec.len());
        assert(contains_seq(dec, admin_marker()));
    }
    oracle.verify_solution(forged.as_slice())
}

} // verus!
