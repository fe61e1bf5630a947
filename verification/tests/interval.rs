use num_bigint::BigUint;
use rsa::traits::{PrivateKeyParts, PublicKeyParts};
use rsa::RsaPrivateKey;

use oracle_attacks::bleichenbacher::{run, PlainPaddingOracle};

// A Bleichenbacher-style attack against a fresh small RSA keypair: the
// padding oracle's verdict comes from the keypair's own decryption, and the
// engine must recover the padded plaintext integer exactly.
#[test]
fn interval_engine_recovers_padded_plaintext() {
    let mut rng = rand::thread_rng();
    let key = RsaPrivateKey::new(&mut rng, 256).unwrap();
    let n = BigUint::from_bytes_be(&key.n().to_bytes_be());
    let e = BigUint::from_bytes_be(&key.e().to_bytes_be());
    let d = BigUint::from_bytes_be(&key.d().to_bytes_be());
    let k = (n.bits() as usize + 7) / 8;

    let b = BigUint::from(1u32) << (8 * (k - 2));
    let b2 = &b * 2u32;
    let b3 = &b * 3u32;

    // PKCS#1-v1.5-style padded message: 02 || nonzero filler || 00 || msg.
    let msg = b"kick it, CC";
    assert!(msg.len() <= k - 11);
    let mut padded = vec![2u8];
    for i in 0..(k - 3 - msg.len()) {
        padded.push((i % 255 + 1) as u8);
    }
    padded.push(0);
    padded.extend_from_slice(msg);
    let m = BigUint::from_bytes_be(&padded);
    assert!(&b2 <= &m && &m < &b3);

    // Encrypt, then let the oracle's secret be the decryption of the
    // ciphertext: the one-bit verdicts all stem from `decrypt`.
    let c = m.modpow(&e, &n);
    let decrypted = c.modpow(&d, &n);
    assert_eq!(decrypted, m);

    let oracle = PlainPaddingOracle::new(n.clone(), decrypted, b2.clone(), b3.clone()).unwrap();
    let recovered = run(&oracle, &n, &b2, &b3, 50_000_000).unwrap();
    assert_eq!(recovered, m);
}
