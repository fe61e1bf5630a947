use oracle_attacks::cipher::{cbc_decrypt_blocks, cbc_encrypt_blocks, ecb_encrypt_blocks};
use oracle_attacks::padding::{pad, padding_valid, unpad, BLOCK_SIZE};

#[test]
fn pad_yellow_submarine() {
    let expected: &[u8] = [
        89, 69, 76, 76, 79, 87, 32, 83, 85, 66, 77, 65, 82, 73, 78, 69, 4, 4, 4, 4,
    ]
    .as_ref();
    assert_eq!(expected, &pad(b"YELLOW SUBMARINE".as_ref(), 20)[..]);
}

#[test]
fn padding_validity() {
    assert!(padding_valid(b"ICE ICE BABY\x04\x04\x04\x04", BLOCK_SIZE));
    assert!(!padding_valid(b"ICE ICE BABY\x05\x05\x05\x05", BLOCK_SIZE));
    assert!(!padding_valid(b"ICE ICE BABY\x01\x02\x03\x04", BLOCK_SIZE));
    assert!(!padding_valid(b"ICE ICE BABY\x03\x03\x03", BLOCK_SIZE));
    assert!(padding_valid(
        b"ICE ICE BABY\x0C\x0C\x0C\x0C\x0C\x0C\x0C\x0C\x0C\x0C\x0C\x0C",
        12,
    ));
}

#[test]
fn pad_unpad_round_trip() {
    for len in 0..40usize {
        let bytes: Vec<u8> = (0..len).map(|i| i as u8).collect();
        let padded = pad(&bytes, BLOCK_SIZE);
        assert_eq!(padded.len() % BLOCK_SIZE, 0);
        assert_eq!(unpad(&padded, BLOCK_SIZE).unwrap(), bytes);
    }
}

#[test]
fn aes_128_cbc() {
    let iv = [0u8; BLOCK_SIZE];
    let key = b"YELLOW SUBMARINE";
    let input = b"ABCDEFGHIJKLMNOP";
    let padded = pad(input.as_ref(), BLOCK_SIZE);
    let ciphertext = cbc_encrypt_blocks(key.as_ref(), iv.as_ref(), &padded);
    let decrypted = cbc_decrypt_blocks(key.as_ref(), iv.as_ref(), &ciphertext);
    assert_eq!(input.as_ref(), &unpad(&decrypted, BLOCK_SIZE).unwrap()[..]);
}

#[test]
fn ecb_identical_blocks_leak() {
    let key = b"YELLOW SUBMARINE";
    let m = [7u8; 32];
    let c = ecb_encrypt_blocks(key.as_ref(), m.as_ref());
    assert_eq!(c.len(), 32);
    assert_eq!(c[0..16], c[16..32]);
}
