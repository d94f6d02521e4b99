use nucleus::crypto::{
    machine_key_from_file, random_bytes, unwrap, wrap, Cipher, KdfParams, NONCE_LEN, SALT_LEN,
};
use nucleus::error::NucleusError;

#[test]
fn roundtrip() {
    let salt = random_bytes(SALT_LEN);
    let c = Cipher::from_passphrase("correct horse", &salt, KdfParams::default()).unwrap();
    let msg = b"el arrendador podra rescindir el contrato";
    let blob = c.seal(msg).unwrap();
    assert_ne!(&blob[NONCE_LEN..], msg);
    assert_eq!(c.open(&blob).unwrap(), msg);
}

#[test]
fn distinct_nonces_per_seal() {
    let c = Cipher::new(&[7u8; 32]);
    let a = c.seal(b"same").unwrap();
    let b = c.seal(b"same").unwrap();
    assert_ne!(a, b);
}

#[test]
fn wrong_passphrase_fails() {
    let salt = random_bytes(SALT_LEN);
    let good = Cipher::from_passphrase("right", &salt, KdfParams::default()).unwrap();
    let blob = good.seal(b"secret").unwrap();
    let bad = Cipher::from_passphrase("wrong", &salt, KdfParams::default()).unwrap();
    assert!(bad.open(&blob).is_err());
}

#[test]
fn tamper_detected() {
    let c = Cipher::new(&[3u8; 32]);
    let mut blob = c.seal(b"secret").unwrap();
    let last = blob.len() - 1;
    blob[last] ^= 0x01;
    assert!(c.open(&blob).is_err());
}

#[test]
fn kdf_params_roundtrip() {
    let p = KdfParams { m_cost: 12345, t_cost: 3, p_cost: 2 };
    assert_eq!(KdfParams::from_bytes(&p.to_bytes()).unwrap(), p);
}

#[test]
fn kdf_params_layout_is_little_endian() {
    let p = KdfParams { m_cost: 0x0102_0304, t_cost: 5, p_cost: 0xff00_0001 };
    assert_eq!(p.to_bytes(), [4, 3, 2, 1, 5, 0, 0, 0, 1, 0, 0, 0xff]);
}

#[test]
fn kdf_params_need_twelve_bytes() {
    assert!(matches!(KdfParams::from_bytes(&[0u8; 11]), Err(NucleusError::Crypto(_))));
    assert!(matches!(
        KdfParams::from_bytes(&[1, 0, 0, 0, 2, 0, 0, 0, 3, 0, 0, 0, 9]),
        Err(NucleusError::Crypto(_))
    ));
    assert_eq!(
        KdfParams::from_bytes(&[1, 0, 0, 0, 2, 0, 0, 0, 3, 0, 0, 0]).unwrap(),
        KdfParams { m_cost: 1, t_cost: 2, p_cost: 3 }
    );
}

#[test]
fn default_kdf_params() {
    assert_eq!(KdfParams::default(), KdfParams { m_cost: 19456, t_cost: 2, p_cost: 1 });
}

#[test]
fn short_blob_is_rejected() {
    let c = Cipher::new(&[1u8; 32]);
    assert!(matches!(c.open(&[0u8; 10]), Err(NucleusError::Crypto(_))));
}

#[test]
fn sealed_blob_carries_nonce_and_tag() {
    let c = Cipher::new(&[9u8; 32]);
    let blob = c.seal(b"abc").unwrap();
    assert_eq!(blob.len(), NONCE_LEN + 3 + 16);
}

#[test]
fn index_token_is_keyed_and_deterministic() {
    let a = Cipher::new(&[1u8; 32]);
    let b = Cipher::new(&[2u8; 32]);
    let t1 = a.index_token("laboral");
    assert_eq!(t1, a.index_token("laboral"));
    assert_ne!(t1, b.index_token("laboral"));
    assert_ne!(t1, a.index_token("mercantil"));
    assert_eq!(t1.len(), 64);
}

#[test]
fn random_bytes_has_requested_length() {
    assert_eq!(random_bytes(SALT_LEN).len(), 16);
    assert!(random_bytes(0).is_empty());
}

#[test]
fn wrap_unwrap_identity() {
    let data = [5u8, 6, 7];
    assert_eq!(unwrap(&wrap(&data).unwrap()).unwrap(), data.to_vec());
}

#[test]
fn machine_key_file_contents() {
    assert!(machine_key_from_file(&[]).unwrap().is_none());
    assert_eq!(machine_key_from_file(&[8u8; 32]).unwrap(), Some([8u8; 32]));
    assert!(matches!(machine_key_from_file(&[8u8; 31]), Err(NucleusError::Crypto(_))));
}

#[test]
fn lane_counts_beyond_argon2s_maximum_are_refused() {
    let salt = random_bytes(SALT_LEN);
    for p_cost in [0x100_0000u32, 0x2000_0000, u32::MAX] {
        let p = KdfParams { m_cost: 64, t_cost: 1, p_cost };
        assert!(matches!(
            Cipher::from_passphrase("pw", &salt, p),
            Err(NucleusError::Crypto(m)) if m == "argon2 params: too many threads"
        ));
    }
}
