//! The profile-forgery attack: an oracle that ECB-encrypts an encoded
//! profile record around an attacker-chosen email field, and the
//! cut-and-paste forgery that splices a block of `admin` padding over the
//! record's trailing role value.

use vstd::prelude::*;

use crate::cipher::{aes_unblock, block_at, block_of, ecb_blocks_ok, ecb_decrypt_blocks,
    ecb_encrypt_blocks, spec_ecb_dec};
use crate::errors::Error;
use crate::oracle::{bytes_equal, DeterministicOracle, Oracle, MAX_INPUT};
use crate::padding::{lemma_padded_len, pad, spec_pad, spec_padding_valid, unpad};
use crate::probe::{const_vec, prefix_length, prefix_plus_suffix_length};
use crate::profile::{decode_profile, pair_key, pair_val, spec_split};
use crate::rng::random_bytes;

verus! {

/// The fixed field laid before the attacker-chosen email value: the bytes
/// of `email=`.
pub open spec fn profile_prefix() -> Seq<u8> {
    seq![101u8, 109u8, 97u8, 105u8, 108u8, 61u8]
}

/// The fixed fields appended after it: the bytes of `&uid=10&role=user`.
pub open spec fn profile_suffix() -> Seq<u8> {
    seq![
        38u8, 117u8, 105u8, 100u8, 61u8, 49u8, 48u8, 38u8, 114u8, 111u8, 108u8, 101u8, 61u8,
        117u8, 115u8, 101u8, 114u8,
    ]
}

/// The bytes of `role`.
pub open spec fn role_key() -> Seq<u8> {
    seq![114u8, 111u8, 108u8, 101u8]
}

/// The bytes of `admin`.
pub open spec fn admin_value() -> Seq<u8> {
    seq![97u8, 100u8, 109u8, 105u8, 110u8]
}

fn profile_prefix_bytes() -> (r: Vec<u8>)
    ensures
        r@ == profile_prefix(),
{
    let mut r: Vec<u8> = Vec::new();
    r.push(101);
    r.push(109);
    r.push(97);
    r.push(105);
    r.push(108);
    r.push(61);
    proof {
        assert(r@ =~= profile_prefix());
    }
    r
}

fn profile_suffix_bytes() -> (r: Vec<u8>)
    ensures
        r@ == profile_suffix(),
{
    let mut r: Vec<u8> = Vec::new();
    r.push(38);
    r.push(117);
    r.push(105);
    r.push(100);
    r.push(61);
    r.push(49);
    r.push(48);
    r.push(38);
    r.push(114);
    r.push(111);
    r.push(108);
    r.push(101);
    r.push(61);
    r.push(117);
    r.push(115);
    r.push(101);
    r.push(114);
    proof {
        assert(r@ =~= profile_suffix());
    }
    r
}

fn role_key_bytes() -> (r: Vec<u8>)
    ensures
        r@ == role_key(),
{
    let mut r: Vec<u8> = Vec::new();
    r.push(114);
    r.push(111);
    r.push(108);
    r.push(101);
    proof {
        assert(r@ =~= role_key());
    }
    r
}

fn admin_value_bytes() -> (r: Vec<u8>)
    ensures
        r@ == admin_value(),
{
    let mut r: Vec<u8> = Vec::new();
    r.push(97);
    r.push(100);
    r.push(109);
    r.push(105);
    r.push(110);
    proof {
        assert(r@ =~= admin_value());
    }
    r
}

/// Some decoded pair of the record names the role `admin`.
pub open spec fn role_is_admin(msg: Seq<u8>) -> bool {
    exists|i: int|
        0 <= i < spec_split(msg, 38).len() && pair_key(#[trigger] spec_split(msg, 38)[i])
            == role_key() && pair_val(spec_split(msg, 38)[i]) == admin_value()
}

/// A decryption passes the admin check: its padding is valid and the
/// stripped record decodes to a profile whose role is `admin`.
pub open spec fn admin_in_profile(dec: Seq<u8>) -> bool {
    &&& spec_padding_valid(dec, 16)
    &&& role_is_admin(dec.take(dec.len() - dec.last()))
}

/// The profile-forgery oracle: ECB-encrypts the record
/// `email=<input>&uid=10&role=user` under a hidden key, and verifies a
/// ciphertext by decrypting, stripping the padding and decoding the record.
pub struct ProfileOracle {
    key: Vec<u8>,
}

impl ProfileOracle {
    /// A fresh oracle under a random key.
    pub fn new() -> (r: Self)
        ensures
            r.o_wf(),
    {
        let key = random_bytes(16);
        ProfileOracle { key }
    }

    fn raw_encrypt(&self, input: &[u8]) -> (r: Vec<u8>)
        requires
            self.o_wf(),
            input@.len() <= MAX_INPUT,
        ensures
            ecb_blocks_ok(
                self.key(),
                spec_pad(profile_prefix() + input@ + profile_suffix(), 16),
                r@,
            ),
    {
        let mut m = profile_prefix_bytes();
        m.extend_from_slice(input);
        let suffix = profile_suffix_bytes();
        m.extend_from_slice(suffix.as_slice());
        proof {
            assert(m@ == profile_prefix() + input@ + profile_suffix());
        }
        let padded = pad(m.as_slice(), 16);
        proof {
            lemma_padded_len(m@.len(), 16);
        }
        ecb_encrypt_blocks(self.key.as_slice(), padded.as_slice())
    }

    /// Succeeds exactly when the ciphertext decrypts, under this oracle's
    /// key, to a validly padded record whose role decodes to `admin`.
    pub fn verify_solution(&self, ct: &[u8]) -> (r: Result<(), Error>)
        requires
            self.o_wf(),
            ct@.len() % 16 == 0,
        ensures
            r is Ok <==> admin_in_profile(spec_ecb_dec(self.key(), ct@)),
            r is Err ==> r == Err::<(), Error>(Error::VerificationMismatch),
    {
        let dec = ecb_decrypt_blocks(self.key.as_slice(), ct);
        let msg = match unpad(dec.as_slice(), 16) {
            Some(m) => m,
            None => {
                return Err(Error::VerificationMismatch);
            },
        };
        let pairs = decode_profile(msg.as_slice(), 38);
        let role = role_key_bytes();
        let admin = admin_value_bytes();
        let ghost pieces = spec_split(msg@, 38);
        let mut i: usize = 0;
        while i < pairs.len()
            invariant
                i <= pairs@.len(),
                pairs@.len() == pieces.len(),
                pieces == spec_split(msg@, 38),
                role@ == role_key(),
                admin@ == admin_value(),
                dec@ == spec_ecb_dec(self.key(), ct@),
                spec_padding_valid(dec@, 16),
                msg@ == dec@.take(dec@.len() - dec@.last()),
                forall|j: int|
                    0 <= j < pairs@.len() ==> (#[trigger] pairs@[j]).0@ == pair_key(pieces[j])
                        && pairs@[j].1@ == pair_val(pieces[j]),
                forall|j: int|
                    0 <= j < i ==> !(pair_key(#[trigger] pieces[j]) == role_key() && pair_val(
                        pieces[j],
                    ) == admin_value()),
            decreases pairs@.len() - i,
        {
            if bytes_equal(pairs[i].0.as_slice(), role.as_slice()) && bytes_equal(
                pairs[i].1.as_slice(),
                admin.as_slice(),
            ) {
                proof {
                    assert(pair_key(spec_split(msg@, 38)[i as int]) == role_key());
                    assert(pair_val(spec_split(msg@, 38)[i as int]) == admin_value());
                    assert(role_is_admin(msg@));
                }
                return Ok(());
            }
            i += 1;
        }
        proof {
            if role_is_admin(msg@) {
                let w = choose|w: int|
                    0 <= w < spec_split(msg@, 38).len() && pair_key(
                        #[trigger] spec_split(msg@, 38)[w],
                    ) == role_key() && pair_val(spec_split(msg@, 38)[w]) == admin_value();
                assert(false);
            }
        }
        Err(Error::VerificationMismatch)
    }
}

impl Oracle for ProfileOracle {
    closed spec fn o_wf(&self) -> bool {
        self.key@.len() == 16
    }

    closed spec fn hidden_len(&self) -> nat {
        profile_prefix().len() + profile_suffix().len()
    }

    fn encrypt(&self, input: &[u8]) -> (r: Result<Vec<u8>, Error>) {
        let c = self.raw_encrypt(input);
        proof {
            lemma_padded_len((profile_prefix() + input@ + profile_suffix()).len(), 16);
        }
        Ok(c)
    }
}

impl DeterministicOracle for ProfileOracle {
    closed spec fn key(&self) -> Seq<u8> {
        self.key@
    }

    closed spec fn prefix(&self) -> Seq<u8> {
        profile_prefix()
    }

    closed spec fn suffix(&self) -> Seq<u8> {
        profile_suffix()
    }

    proof fn wf_facts(&self) {
    }

    fn det_encrypt(&self, input: &[u8]) -> (r: Result<Vec<u8>, Error>) {
        let c = self.raw_encrypt(input);
        Ok(c)
    }
}

/// Forge a ciphertext whose record decodes with role `admin`: encrypt an
/// input that aligns a whole block of `pad("admin")` after the prefix,
/// keep that ciphertext block, and splice it over the block where the
/// original role value begins.
pub fn forge_admin_profile(oracle: &ProfileOracle) -> (r: Result<(), Error>)
    requires
        oracle.o_wf(),
    ensures
        r is Ok,
{
    proof {
        oracle.wf_facts();
    }
    let ghost key = oracle.key();
    let prefix_len = match prefix_length(oracle) {
        Ok(v) => v,
        Err(e) => {
            proof {
                assert(false);
            }
            return Err(e);
        },
    };
    proof {
        assert(prefix_len == 6);
    }
    let prefix_blocks = (prefix_len + 15) / 16;
    let prefix_padding = prefix_blocks * 16 - prefix_len;
    let admin = admin_value_bytes();
    let target_clear = pad(admin.as_slice(), 16);
    proof {
        lemma_padded_len(5, 16);
        assert(target_clear@.len() == 16);
    }
    let mut input1 = const_vec(0, prefix_padding);
    input1.extend_from_slice(target_clear.as_slice());
    let ghost m1 = spec_pad(profile_prefix() + input1@ + profile_suffix(), 16);
    let c1 = match oracle.det_encrypt(input1.as_slice()) {
        Ok(c) => c,
        Err(e) => {
            proof {
                assert(false);
            }
            return Err(e);
        },
    };
    proof {
        lemma_padded_len((profile_prefix() + input1@ + profile_suffix()).len(), 16);
        assert(m1.len() == 64);
        assert(c1@.len() == 64);
        // The second plaintext block is exactly the padded admin value.
        assert(block_of(m1, 1) =~= target_clear@) by {
            assert forall|t: int| 0 <= t < 16 implies m1[16 + t] == target_clear@[t] by {
                assert(m1[16 + t] == input1@[10 + t]);
                assert(input1@[10 + t] == target_clear@[t]);
            }
        };
        assert(1 < m1.len() as int / 16);
        assert(aes_unblock(key, block_of(c1@, 1)) == target_clear@);
    }
    let target_block = block_at(c1.as_slice(), prefix_blocks);
    let h = match prefix_plus_suffix_length(oracle) {
        Ok(v) => v,
        Err(e) => {
            proof {
                assert(false);
            }
            return Err(e);
        },
    };
    proof {
        assert(h == 23);
    }
    let blocks = (h + 15) / 16;
    let padding = blocks * 16 - h;
    let input2 = const_vec(0, padding + 4);
    let ghost m2 = spec_pad(profile_prefix() + input2@ + profile_suffix(), 16);
    let c2 = match oracle.det_encrypt(input2.as_slice()) {
        Ok(c) => c,
        Err(e) => {
            proof {
                assert(false);
            }
            return Err(e);
        },
    };
    proof {
        lemma_padded_len((profile_prefix() + input2@ + profile_suffix()).len(), 16);
        assert(m2.len() == 48);
        assert(c2@.len() == 48);
    }
    // Keep the blocks up to the role value, then splice the admin block.
    let mut forged = block_at(c2.as_slice(), 0);
    let b1 = block_at(c2.as_slice(), 1);
    forged.extend_from_slice(b1.as_slice());
    forged.extend_from_slice(target_block.as_slice());
    proof {
        assert(forged@ == block_of(c2@, 0) + block_of(c2@, 1) + block_of(c1@, 1));
        assert(forged@.len() == 48);
        let dec = spec_ecb_dec(key, forged@);
        assert(block_of(forged@, 0) =~= block_of(c2@, 0));
        assert(block_of(forged@, 1) =~= block_of(c2@, 1));
        assert(block_of(forged@, 2) =~= block_of(c1@, 1));
        assert(0 < m2.len() as int / 16 && 1 < m2.len() as int / 16);
        // The forged decryption: the record's head, then the admin block.
        let msg_all = m2.take(32) + target_clear@;
        assert(dec =~= msg_all) by {
            assert forall|t: int| 0 <= t < 48 implies dec[t] == msg_all[t] by {
                let bj = t / 16;
                let u = t % 16;
                vstd::arithmetic::div_mod::lemma_fundamental_div_mod(t, 16);
                vstd::arithmetic::div_mod::lemma_mod_division_less_than_divisor(t, 16);
                assert(dec[t] == aes_unblock(key, block_of(forged@, bj))[u]);
                if t < 16 {
                    vstd::arithmetic::div_mod::lemma_fundamental_div_mod_converse_div(t, 16, 0, t);
                    assert(aes_unblock(key, block_of(forged@, 0)) == block_of(m2, 0));
                    assert(block_of(m2, 0)[u] == m2[t]);
                } else if t < 32 {
                    vstd::arithmetic::div_mod::lemma_fundamental_div_mod_converse_div(
                        t,
                        16,
                        1,
                        t - 16,
                    );
                    assert(aes_unblock(key, block_of(forged@, 1)) == block_of(m2, 1));
                    assert(block_of(m2, 1)[u] == m2[t]);
                } else {
                    vstd::arithmetic::div_mod::lemma_fundamental_div_mod_converse_div(
                        t,
                        16,
                        2,
                        t - 32,
                    );
                    assert(aes_unblock(key, block_of(forged@, 2)) == target_clear@);
                }
            }
        };
        // Valid padding: the admin block ends in eleven bytes of value 11.
        assert(dec.last() == 11);
        assert(forall|t: int| dec.len() - 11 <= t < dec.len() ==> dec[t] == 11);
        vstd::arithmetic::div_mod::lemma_fundamental_div_mod_converse_mod(48, 16, 3, 0);
        assert(spec_padding_valid(dec, 16));
        // The stripped record is the head plus the bare admin value.
        let msg = dec.take(37);
        assert(msg =~= m2.take(32) + admin_value());
        lemma_forged_record_decodes(msg, m2, input2@);
        assert(role_is_admin(msg));
        assert(admin_in_profile(dec));
    }
    oracle.verify_solution(forged.as_slice())
}

/// The forged record `email=<zeros>&uid=10&role=admin` splits at its two
/// field separators, and its last pair is `role=admin`.
proof fn lemma_forged_record_decodes(msg: Seq<u8>, m2: Seq<u8>, input2: Seq<u8>)
    requires
        input2 == Seq::new(13, |t: int| 0u8),
        m2 == spec_pad(profile_prefix() + input2 + profile_suffix(), 16),
        msg == m2.take(32) + admin_value(),
    ensures
        role_is_admin(msg),
{
    let raw = profile_prefix() + input2 + profile_suffix();
    assert(raw.len() == 36);
    assert(msg.len() == 37);
    assert forall|t: int| 0 <= t < 32 implies msg[t] == raw[t] by {}
    // First separator: after `email=` and the thirteen zero bytes.
    assert(msg[19] == 38);
    assert forall|t: int| 0 <= t < 19 implies msg[t] != 38 by {
        if t < 6 {
            assert(msg[t] == profile_prefix()[t]);
        } else {
            assert(msg[t] == 0u8);
        }
    }
    crate::profile::lemma_first_idx_is(msg, 38, 19);
    let s1 = msg.skip(20);
    assert(s1.len() == 17);
    // Second separator: after `uid=10`.
    assert forall|t: int| 0 <= t < s1.len() implies s1[t] == msg[20 + t] by {}
    assert(s1[6] == 38);
    assert forall|t: int| 0 <= t < 6 implies s1[t] != 38 by {
        assert(s1[t] == profile_suffix()[t + 1]);
    }
    crate::profile::lemma_first_idx_is(s1, 38, 6);
    let s2 = s1.skip(7);
    assert(s2.len() == 10);
    assert forall|t: int| 0 <= t < s2.len() implies s2[t] == msg[27 + t] by {}
    // The final piece `role=admin` holds no separator.
    assert forall|t: int| 0 <= t < s2.len() implies s2[t] != 38 by {
        if t < 5 {
            assert(s2[t] == profile_suffix()[t + 8]);
        } else {
            assert(s2[t] == admin_value()[t - 5]);
        }
    }
    crate::profile::lemma_first_idx_none(s2, 38);
    let pieces = spec_split(msg, 38);
    assert(pieces == seq![msg.take(19)] + spec_split(msg.skip(20), 38));
    assert(spec_split(s1, 38) == seq![s1.take(6)] + spec_split(s2, 38));
    assert(spec_split(s2, 38) == seq![s2]);
    assert(pieces.len() == 3);
    assert(pieces[2] == spec_split(s1, 38)[1]);
    assert(pieces[2] == s2);
    // Its key is `role` and its value `admin`.
    assert(s2[4] == 61);
    assert forall|t: int| 0 <= t < 4 implies s2[t] != 61 by {
        assert(s2[t] == profile_suffix()[t + 8]);
    }
    crate::profile::lemma_first_idx_is(s2, 61, 4);
    assert(pair_key(s2) =~= role_key());
    let rest = s2.skip(5);
    assert forall|t: int| 0 <= t < rest.len() implies rest[t] != 61 by {
        assert(rest[t] == admin_value()[t]);
    }
    crate::profile::lemma_first_idx_none(rest, 61);
    assert(pair_val(s2) =~= admin_value());
}

} // verus!
