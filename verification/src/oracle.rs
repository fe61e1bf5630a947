//! The oracle abstraction and its variants: black boxes that encrypt
//! attacker input surrounded by hidden secret material.

use vstd::prelude::*;

use crate::cipher::{cbc_blocks_ok, cbc_encrypt_blocks, ecb_blocks_ok, ecb_encrypt_blocks};
use crate::errors::Error;
use crate::padding::{lemma_padded_len, pad, padded_len, spec_pad};
use crate::rng::{random_below, random_bool, random_bytes};

verus! {

/// The largest hidden prefix or suffix length an oracle may carry.
pub const MAX_SECRET: usize = 100000;

/// The largest attacker input length the oracles accept: room for a whole
/// secret plus the alignment bytes the attacks prepend; keeps every length
/// computation far away from `usize` overflow.
pub const MAX_INPUT: usize = 100064;

/// A black-box encryption oracle. Its ciphertext length is a deterministic
/// step function of the input length: the hidden material's length plus the
/// input length, padded up to the next block boundary.
pub trait Oracle {
    /// The oracle's construction-time invariant.
    spec fn o_wf(&self) -> bool;

    /// Total length of the hidden prefix and suffix material.
    spec fn hidden_len(&self) -> nat;

    /// Encrypt attacker input surrounded by the hidden material.
    fn encrypt(&self, input: &[u8]) -> (r: Result<Vec<u8>, Error>)
        requires
            self.o_wf(),
            input@.len() <= MAX_INPUT,
        ensures
            r matches Ok(c) && c@.len() == padded_len(self.hidden_len() + input@.len(), 16),
    ;
}

/// An oracle whose encryption is a pure function of the input: fixed key,
/// fixed prefix and suffix, ECB mode. Attacks that compare ciphertexts
/// across independent calls require this refinement.
pub trait DeterministicOracle: Oracle {
    /// The hidden 16-byte key.
    spec fn key(&self) -> Seq<u8>;

    /// The hidden prefix laid before the attacker input.
    spec fn prefix(&self) -> Seq<u8>;

    /// The hidden suffix appended after the attacker input.
    spec fn suffix(&self) -> Seq<u8>;

    /// A well-formed deterministic oracle has a 16-byte key, bounded hidden
    /// material, and hides exactly its prefix and suffix.
    proof fn wf_facts(&self)
        requires
            self.o_wf(),
        ensures
            self.key().len() == 16,
            self.hidden_len() == self.prefix().len() + self.suffix().len(),
            self.prefix().len() <= MAX_SECRET,
            self.suffix().len() <= MAX_SECRET,
    ;

    /// Encrypt, with the full ECB block structure visible: the ciphertext
    /// is the blockwise encryption of `pad(prefix ++ input ++ suffix)`.
    fn det_encrypt(&self, input: &[u8]) -> (r: Result<Vec<u8>, Error>)
        requires
            self.o_wf(),
            input@.len() <= MAX_INPUT,
        ensures
            r matches Ok(c) && ecb_blocks_ok(
                self.key(),
                spec_pad(self.prefix() + input@ + self.suffix(), 16),
                c@,
            ),
    ;
}

/// The deterministic prefix-and-suffix ECB oracle: encrypts
/// `prefix ++ input ++ suffix` under a fixed key. With an empty prefix it
/// is the suffix-only oracle.
pub struct EcbOracle {
    key: Vec<u8>,
    prefix: Vec<u8>,
    suffix: Vec<u8>,
}

impl EcbOracle {
    /// Construct from explicit secret material.
    pub fn with_secrets(key: Vec<u8>, prefix: Vec<u8>, suffix: Vec<u8>) -> (r: Self)
        requires
            key@.len() == 16,
            prefix@.len() <= MAX_SECRET,
            suffix@.len() <= MAX_SECRET,
        ensures
            r.o_wf(),
            r.key() == key@,
            r.prefix() == prefix@,
            r.suffix() == suffix@,
    {
        EcbOracle { key, prefix, suffix }
    }

    /// A suffix-only oracle under a fresh random key.
    pub fn new(suffix: Vec<u8>) -> (r: Self)
        requires
            suffix@.len() <= MAX_SECRET,
        ensures
            r.o_wf(),
            r.prefix().len() == 0,
            r.suffix() == suffix@,
    {
        let key = random_bytes(16);
        EcbOracle { key, prefix: Vec::new(), suffix }
    }

    /// A prefix-and-suffix oracle under a fresh random key, with a random
    /// prefix of the given length.
    pub fn with_random_prefix(prefix_len: usize, suffix: Vec<u8>) -> (r: Self)
        requires
            prefix_len <= MAX_SECRET,
            suffix@.len() <= MAX_SECRET,
        ensures
            r.o_wf(),
            r.prefix().len() == prefix_len,
            r.suffix() == suffix@,
    {
        let key = random_bytes(16);
        let prefix = random_bytes(prefix_len);
        EcbOracle { key, prefix, suffix }
    }

    /// Succeeds exactly when the candidate equals the hidden suffix.
    pub fn verify_suffix(&self, candidate: &[u8]) -> (r: Result<(), Error>)
        ensures
            r is Ok <==> candidate@ == self.suffix(),
            r is Err ==> r == Err::<(), Error>(Error::VerificationMismatch),
    {
        if bytes_equal(candidate, self.suffix.as_slice()) {
            Ok(())
        } else {
            Err(Error::VerificationMismatch)
        }
    }

    fn raw_encrypt(&self, input: &[u8]) -> (r: Vec<u8>)
        requires
            self.o_wf(),
            input@.len() <= MAX_INPUT,
        ensures
            ecb_blocks_ok(self.key(), spec_pad(self.prefix() + input@ + self.suffix(), 16), r@),
    {
        let mut m: Vec<u8> = Vec::new();
        m.extend_from_slice(self.prefix.as_slice());
        m.extend_from_slice(input);
        m.extend_from_slice(self.suffix.as_slice());
        proof {
            assert(m@ == self.prefix() + input@ + self.suffix());
        }
        let padded = pad(m.as_slice(), 16);
        proof {
            lemma_padded_len(m@.len(), 16);
        }
        ecb_encrypt_blocks(self.key.as_slice(), padded.as_slice())
    }
}

impl Oracle for EcbOracle {
    closed spec fn o_wf(&self) -> bool {
        &&& self.key@.len() == 16
        &&& self.prefix@.len() <= MAX_SECRET
        &&& self.suffix@.len() <= MAX_SECRET
    }

    closed spec fn hidden_len(&self) -> nat {
        self.prefix@.len() + self.suffix@.len()
    }

    fn encrypt(&self, input: &[u8]) -> (r: Result<Vec<u8>, Error>) {
        let c = self.raw_encrypt(input);
        Ok(c)
    }
}

impl DeterministicOracle for EcbOracle {
    closed spec fn key(&self) -> Seq<u8> {
        self.key@
    }

    closed spec fn prefix(&self) -> Seq<u8> {
        self.prefix@
    }

    closed spec fn suffix(&self) -> Seq<u8> {
        self.suffix@
    }

    proof fn wf_facts(&self) {
    }

    fn det_encrypt(&self, input: &[u8]) -> (r: Result<Vec<u8>, Error>) {
        let c = self.raw_encrypt(input);
        Ok(c)
    }
}

/// The block-cipher mode an oracle was constructed with.
#[derive(Clone, Copy, Debug, PartialEq, Eq, Structural)]
pub enum Mode {
    Ecb,
    Cbc,
}

/// The ECB-detection oracle: encrypts attacker input alone (behind at most
/// one block of hidden prefix) under a mode chosen at construction.
pub struct ModeOracle {
    key: Vec<u8>,
    iv: Vec<u8>,
    prefix: Vec<u8>,
    mode: Mode,
}

impl ModeOracle {
    /// The construction-time invariant.
    pub closed spec fn m_wf(&self) -> bool {
        &&& self.key@.len() == 16
        &&& self.iv@.len() == 16
        &&& self.prefix@.len() <= 16
    }

    /// The mode the oracle was fixed to.
    pub closed spec fn mode(&self) -> Mode {
        self.mode
    }

    /// The hidden key.
    pub closed spec fn m_key(&self) -> Seq<u8> {
        self.key@
    }

    /// The hidden initialization vector.
    pub closed spec fn m_iv(&self) -> Seq<u8> {
        self.iv@
    }

    /// The hidden prefix of at most one block.
    pub closed spec fn m_prefix(&self) -> Seq<u8> {
        self.prefix@
    }

    /// A fresh oracle: random key and IV, a random prefix of at most one
    /// block, and a random mode.
    pub fn new() -> (r: Self)
        ensures
            r.m_wf(),
    {
        let key = random_bytes(16);
        let iv = random_bytes(16);
        let prefix = random_bytes(random_below(17));
        let mode = if random_bool() {
            Mode::Ecb
        } else {
            Mode::Cbc
        };
        ModeOracle { key, iv, prefix, mode }
    }

    /// A fresh oracle fixed to the given mode.
    pub fn with_mode(mode: Mode) -> (r: Self)
        ensures
            r.m_wf(),
            r.mode() == mode,
    {
        let key = random_bytes(16);
        let iv = random_bytes(16);
        let prefix = random_bytes(random_below(17));
        ModeOracle { key, iv, prefix, mode }
    }

    /// Succeeds exactly when the guess names the oracle's mode.
    pub fn verify_solution(&self, guessed_ecb: bool) -> (r: Result<(), Error>)
        ensures
            r is Ok <==> guessed_ecb == (self.mode() == Mode::Ecb),
            r is Err ==> r == Err::<(), Error>(Error::VerificationMismatch),
    {
        if guessed_ecb == matches!(self.mode, Mode::Ecb) {
            Ok(())
        } else {
            Err(Error::VerificationMismatch)
        }
    }

    /// Encrypt `prefix ++ input` under the oracle's fixed mode.
    pub fn encrypt(&self, input: &[u8]) -> (r: Result<Vec<u8>, Error>)
        requires
            self.m_wf(),
            input@.len() <= MAX_INPUT,
        ensures
            r matches Ok(c) && ({
                let m = spec_pad(self.m_prefix() + input@, 16);
                &&& c@.len() == m.len()
                &&& self.m_prefix().len() <= 16
                &&& (self.mode() == Mode::Ecb ==> ecb_blocks_ok(self.m_key(), m, c@))
                &&& (self.mode() == Mode::Cbc ==> cbc_blocks_ok(self.m_key(), self.m_iv(), m, c@))
            }),
    {
        let mut m: Vec<u8> = Vec::new();
        m.extend_from_slice(self.prefix.as_slice());
        m.extend_from_slice(input);
        proof {
            assert(m@ == self.prefix@ + input@);
        }
        let padded = pad(m.as_slice(), 16);
        proof {
            lemma_padded_len(m@.len(), 16);
        }
        let c = match self.mode {
            Mode::Ecb => ecb_encrypt_blocks(self.key.as_slice(), padded.as_slice()),
            Mode::Cbc => cbc_encrypt_blocks(
                self.key.as_slice(),
                self.iv.as_slice(),
                padded.as_slice(),
            ),
        };
        Ok(c)
    }
}

/// Compare two byte strings.
pub fn bytes_equal(a: &[u8], b: &[u8]) -> (r: bool)
    ensures
        r == (a@ == b@),
{
    if a.len() != b.len() {
        return false;
    }
    let mut i: usize = 0;
    while i < a.len()
        invariant
            i <= a@.len(),
            a@.len() == b@.len(),
            forall|u: int| 0 <= u < i ==> a@[u] == b@[u],
        decreases a@.len() - i,
    {
        if a[i] != b[i] {
            return false;
        }
        i += 1;
    }
    proof {
        assert(a@ =~= b@);
    }
    true
}

/// A fresh random cipher block.
pub fn random_block() -> (r: Vec<u8>)
    ensures
        r@.len() == 16,
{
    random_bytes(16)
}

} // verus!
