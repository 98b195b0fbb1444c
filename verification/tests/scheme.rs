use saber::params::{KEYBYTES, NOISE_SEEDBYTES, SEEDBYTES};
use saber::saber::{
    indcpa_kem_dec, indcpa_kem_enc, indcpa_kem_keypair, keypair_from_seeds, PublicKey, SecretKey,
    BYTES_CCA_DEC, CIPHERTEXTBYTES, MESSAGEBYTES, POLYVECCOMPRESSEDBYTES, PUBLICKEYBYTES,
    RECONBYTES_KEM, SECRETKEYBYTES,
};

#[test]
fn indcpa_impl() {
    let (pk, sk) = indcpa_kem_keypair();
    for _ in 0..100 {
        let noiseseed = rand::random::<[u8; NOISE_SEEDBYTES]>();
        let message_received = rand::random::<[u8; 32]>();
        let ciphertext = indcpa_kem_enc(&message_received, &noiseseed, &pk);
        let message_dec = indcpa_kem_dec(&sk, &ciphertext);
        assert_eq!(&message_dec[..], &message_received[..]);
    }
}

#[test]
fn indcpa_reference() {
    for _ in 0..100 {
        let noiseseed = rand::random::<[u8; NOISE_SEEDBYTES]>();
        let message_received = rand::random::<[u8; MESSAGEBYTES]>();
        let (pk, sk) = indcpa_kem_keypair();
        let ciphertext = indcpa_kem_enc(&message_received, &noiseseed, &pk);
        let message_dec = indcpa_kem_dec(&sk, &ciphertext);
        assert_eq!(&message_dec[..], &message_received[..]);
    }
}

#[test]
fn indcpa_keypair() {
    let noiseseed = rand::random::<[u8; NOISE_SEEDBYTES]>();
    let message_received = [b'A'; 32];
    let (pk, sk) = indcpa_kem_keypair();
    let ciphertext = indcpa_kem_enc(&message_received, &noiseseed, &pk);
    let message_dec = indcpa_kem_dec(&sk, &ciphertext);
    assert_eq!(&message_dec[..], &message_received[..]);
}

#[test]
fn polyveccompressedbytes_value() {
    assert_eq!(POLYVECCOMPRESSEDBYTES + SEEDBYTES, PUBLICKEYBYTES);
}

#[test]
fn bytes_cca_dec_value() {
    assert_eq!(CIPHERTEXTBYTES + RECONBYTES_KEM, BYTES_CCA_DEC);
}

#[test]
fn fixed_seeds_round_trip() {
    let seed = [7u8; SEEDBYTES];
    let key_noise = [11u8; NOISE_SEEDBYTES];
    let (pk, sk) = keypair_from_seeds(&seed, &key_noise);
    let message = [b'A'; KEYBYTES];
    let noiseseed = [42u8; NOISE_SEEDBYTES];
    let ciphertext = indcpa_kem_enc(&message, &noiseseed, &pk);
    assert_eq!(indcpa_kem_dec(&sk, &ciphertext), message);
}

#[test]
fn key_generation_is_a_function_of_the_seeds() {
    let seed = [1u8; SEEDBYTES];
    let noise = [2u8; NOISE_SEEDBYTES];
    let (pk1, sk1) = keypair_from_seeds(&seed, &noise);
    let (pk2, sk2) = keypair_from_seeds(&seed, &noise);
    assert_eq!(pk1.as_slice(), pk2.as_slice());
    assert_eq!(sk1.as_slice(), sk2.as_slice());
    let (pk3, sk3) = keypair_from_seeds(&seed, &[3u8; NOISE_SEEDBYTES]);
    assert_ne!(pk1.as_slice(), pk3.as_slice());
    assert_ne!(sk1.as_slice(), sk3.as_slice());
}

#[test]
fn public_key_ends_with_the_seed() {
    let seed: [u8; SEEDBYTES] = core::array::from_fn(|i| i as u8);
    let (pk, _) = keypair_from_seeds(&seed, &[9u8; NOISE_SEEDBYTES]);
    assert_eq!(&pk.as_slice()[POLYVECCOMPRESSEDBYTES..], &seed[..]);
}

#[test]
fn fresh_key_pairs_differ() {
    let (pk1, sk1) = indcpa_kem_keypair();
    let (pk2, sk2) = indcpa_kem_keypair();
    assert_ne!(pk1.as_slice(), pk2.as_slice());
    assert_ne!(sk1.as_slice(), sk2.as_slice());
}

#[test]
fn encryption_is_a_function_of_its_inputs() {
    let (pk, _) = keypair_from_seeds(&[5u8; SEEDBYTES], &[6u8; NOISE_SEEDBYTES]);
    let message = [0x5au8; KEYBYTES];
    let c1 = indcpa_kem_enc(&message, &[1u8; NOISE_SEEDBYTES], &pk);
    let c2 = indcpa_kem_enc(&message, &[1u8; NOISE_SEEDBYTES], &pk);
    let c3 = indcpa_kem_enc(&message, &[2u8; NOISE_SEEDBYTES], &pk);
    assert_eq!(&c1[..], &c2[..]);
    assert_ne!(&c1[..], &c3[..]);
}

#[test]
fn size_invariants() {
    assert_eq!(POLYVECCOMPRESSEDBYTES, 960);
    assert_eq!(RECONBYTES_KEM, 128);
    assert_eq!(PUBLICKEYBYTES, 992);
    assert_eq!(SECRETKEYBYTES, 1248);
    assert_eq!(BYTES_CCA_DEC, 1088);
    let (pk, sk) = keypair_from_seeds(&[0u8; SEEDBYTES], &[0u8; NOISE_SEEDBYTES]);
    assert_eq!(pk.as_slice().len(), POLYVECCOMPRESSEDBYTES + SEEDBYTES);
    assert_eq!(sk.as_slice().len(), SECRETKEYBYTES);
    let ct = indcpa_kem_enc(&[0u8; KEYBYTES], &[0u8; NOISE_SEEDBYTES], &pk);
    assert_eq!(ct.len(), POLYVECCOMPRESSEDBYTES + RECONBYTES_KEM);
}

#[test]
fn keys_default_to_zero() {
    assert_eq!(PublicKey::default().to_bytes(), [0u8; PUBLICKEYBYTES]);
    assert_eq!(SecretKey::default().to_bytes(), [0u8; SECRETKEYBYTES]);
}

#[test]
fn every_message_bit_survives() {
    let (pk, sk) = keypair_from_seeds(&[21u8; SEEDBYTES], &[22u8; NOISE_SEEDBYTES]);
    for bit in 0..256usize {
        let mut message = [0u8; KEYBYTES];
        message[bit / 8] = 1 << (bit % 8);
        let ct = indcpa_kem_enc(&message, &[bit as u8; NOISE_SEEDBYTES], &pk);
        assert_eq!(indcpa_kem_dec(&sk, &ct), message);
    }
}
