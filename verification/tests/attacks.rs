use oracle_attacks::bitflip::{flip_admin_cookie, CbcCookieOracle};
use oracle_attacks::forge::{forge_admin_profile, ProfileOracle};
use oracle_attacks::oracle::{DeterministicOracle, EcbOracle, Mode, ModeOracle};
use oracle_attacks::oracle::random_block;
use oracle_attacks::padding::{pad, BLOCK_SIZE};
use oracle_attacks::probe::{prefix_length, prefix_plus_suffix_length, suffix_length};
use oracle_attacks::recover::{decrypt_suffix, matasano2_11, matasano2_12, matasano2_14, uses_ecb};

#[test]
fn test_length_functions() {
    let key = random_block();
    let mut prefix = Vec::new();
    let mut suffix = Vec::new();
    for _ in 0..64 {
        for _ in 0..64 {
            {
                let oracle =
                    EcbOracle::with_secrets(key.clone(), prefix.clone(), suffix.clone());
                assert!(prefix.len() == prefix_length(&oracle).unwrap());
            }
            suffix.push(1);
        }
        suffix.clear();
        prefix.push(0);
    }
}

#[test]
fn length_probes_exact_for_all_small_sizes() {
    // Every prefix and suffix length below two blocks is probed exactly.
    let key = random_block();
    for p in 0..2 * BLOCK_SIZE {
        for s in 0..2 * BLOCK_SIZE {
            let prefix: Vec<u8> = (0..p).map(|i| (i * 3) as u8).collect();
            let suffix: Vec<u8> = (0..s).map(|i| (i * 5 + 1) as u8).collect();
            let oracle = EcbOracle::with_secrets(key.clone(), prefix, suffix);
            assert_eq!(prefix_length(&oracle).unwrap(), p);
            assert_eq!(suffix_length(&oracle).unwrap(), s);
            assert_eq!(prefix_plus_suffix_length(&oracle).unwrap(), p + s);
        }
    }
}

#[test]
fn decrypt_suffix_recovers_exactly() {
    let empty: Vec<u8> = Vec::new();
    let partial = b"hello".to_vec();
    let long: Vec<u8> = (0..48).map(|i| (i * 7 + 3) as u8).collect();
    for secret in [empty, partial, long] {
        let oracle = EcbOracle::new(secret.clone());
        assert_eq!(decrypt_suffix(&oracle).unwrap(), secret);
    }
}

#[test]
fn decrypt_suffix_padded_admin_block() {
    // A suffix of "admin" padded to one whole block is recovered with its
    // padding bytes intact.
    let secret = pad(b"admin".as_ref(), BLOCK_SIZE);
    assert_eq!(secret.len(), BLOCK_SIZE);
    let oracle = EcbOracle::new(secret.clone());
    let recovered = decrypt_suffix(&oracle).unwrap();
    assert_eq!(recovered, secret);
    assert_eq!(&recovered[..5], b"admin");
    assert!(recovered[5..].iter().all(|&b| b == 11));
}

#[test]
fn prefix_and_suffix_oracle_scenario() {
    let key = random_block();
    let prefix = b"fixed".to_vec();
    let suffix = b"secret!!".to_vec();
    let oracle = EcbOracle::with_secrets(key, prefix, suffix.clone());
    assert_eq!(prefix_length(&oracle).unwrap(), 5);
    assert_eq!(suffix_length(&oracle).unwrap(), 8);
    assert_eq!(decrypt_suffix(&oracle).unwrap(), suffix);
}

#[test]
fn uses_ecb_detects_modes() {
    for _ in 0..20 {
        let ecb = ModeOracle::with_mode(Mode::Ecb);
        assert_eq!(uses_ecb(&ecb).unwrap(), true);
        let cbc = ModeOracle::with_mode(Mode::Cbc);
        assert_eq!(uses_ecb(&cbc).unwrap(), false);
    }
}

#[test]
fn challenge_runners_succeed() {
    let oracle = ModeOracle::with_mode(Mode::Ecb);
    assert!(matasano2_11(&oracle).is_ok());
    assert!(matasano2_12(b"Rollin' in my 5.0".to_vec()).is_ok());
    assert!(matasano2_14(11, b"with my rag-top down".to_vec()).is_ok());
}

#[test]
fn forge_admin_profile_succeeds() {
    for _ in 0..5 {
        let oracle = ProfileOracle::new();
        assert!(forge_admin_profile(&oracle).is_ok());
    }
}

#[test]
fn profile_oracle_rejects_honest_record() {
    let oracle = ProfileOracle::new();
    let honest = oracle.det_encrypt(b"foo@bar.com").unwrap();
    assert!(oracle.verify_solution(&honest).is_err());
}

#[test]
fn flip_admin_cookie_succeeds() {
    let prefix = b"comment1=cooking%20MCs;userdata=".to_vec();
    let suffix = b";comment2=%20like%20a%20pound%20of%20bacon".to_vec();
    for _ in 0..5 {
        let oracle = CbcCookieOracle::new(prefix.clone(), suffix.clone());
        assert!(flip_admin_cookie(&oracle).is_ok());
    }
}

#[test]
fn cookie_oracle_rejects_honest_ciphertext() {
    let oracle = CbcCookieOracle::new(
        b"comment1=cooking%20MCs;userdata=".to_vec(),
        b";comment2=%20like%20a%20pound%20of%20bacon".to_vec(),
    );
    let honest = oracle.cookie_encrypt(b"plain user data").unwrap();
    assert!(oracle.verify_solution(&honest).is_err());
}
