use saber::codec::{pack_poly, unpack_poly};
use saber::error::Error;
use saber::params::{N, POLYBYTES};
use saber::poly::Poly;
use saber::saber::{
    ciphertext_from_bytes, PublicKey, SecretKey, Vector, BYTES_CCA_DEC, K, POLYVECBYTES,
    POLYVECCOMPRESSEDBYTES, PUBLICKEYBYTES, SECRETKEYBYTES,
};

fn random_poly(mask: u16) -> Poly {
    let mut coeffs = [0u16; N];
    for c in coeffs.iter_mut() {
        *c = rand::random::<u16>() & mask;
    }
    Poly { coeffs }
}

fn random_vector(mask: u16) -> Vector {
    Vector { polys: [random_poly(mask), random_poly(mask), random_poly(mask)] }
}

fn packed(p: &Poly, w: usize) -> Vec<u8> {
    let mut out = Vec::new();
    pack_poly(p, w, &mut out);
    out
}

#[test]
fn pack_ten_bits_lays_four_coefficients_over_five_bytes() {
    let mut coeffs = [0u16; N];
    coeffs[0] = 0x3ff;
    coeffs[1] = 0x001;
    coeffs[2] = 0x2aa;
    coeffs[3] = 0x155;
    let bytes = packed(&Poly { coeffs }, 10);
    assert_eq!(bytes.len(), 320);
    assert_eq!(&bytes[..5], &[0xff, 0x07, 0xa0, 0x6a, 0x55]);
    assert!(bytes[5..].iter().all(|&b| b == 0));
}

#[test]
fn pack_ten_bits_matches_the_grouped_formula() {
    let p = random_poly(0xffff);
    let bytes = packed(&p, 10);
    for j in 0..N / 4 {
        let c = &p.coeffs[4 * j..4 * j + 4];
        let b = &bytes[5 * j..5 * j + 5];
        assert_eq!(b[0], (c[0] & 0xff) as u8);
        assert_eq!(b[1], (((c[0] >> 8) & 0x03) | ((c[1] & 0x3f) << 2)) as u8);
        assert_eq!(b[2], (((c[1] >> 6) & 0x0f) | ((c[2] & 0x0f) << 4)) as u8);
        assert_eq!(b[3], (((c[2] >> 4) & 0x3f) | ((c[3] & 0x03) << 6)) as u8);
        assert_eq!(b[4], ((c[3] >> 2) & 0xff) as u8);
    }
}

#[test]
fn pack_thirteen_bits_is_the_little_endian_bit_stream() {
    let p = random_poly(0xffff);
    let bytes = packed(&p, 13);
    assert_eq!(bytes.len(), POLYBYTES);
    for k in 0..13 * N {
        let stream_bit = (bytes[k / 8] >> (k % 8)) & 1;
        let coeff_bit = ((p.coeffs[k / 13] >> (k % 13)) & 1) as u8;
        assert_eq!(stream_bit, coeff_bit);
    }
}

#[test]
fn pack_four_bits_puts_two_coefficients_in_a_byte() {
    let mut coeffs = [0u16; N];
    coeffs[0] = 0x3;
    coeffs[1] = 0xc;
    coeffs[255] = 0xf;
    let bytes = packed(&Poly { coeffs }, 4);
    assert_eq!(bytes.len(), 128);
    assert_eq!(bytes[0], 0xc3);
    assert_eq!(bytes[127], 0xf0);
}

#[test]
fn pack_appends_to_what_is_there() {
    let mut out = vec![1u8, 2, 3];
    pack_poly(&random_poly(0x3ff), 10, &mut out);
    assert_eq!(out.len(), 323);
    assert_eq!(&out[..3], &[1, 2, 3]);
}

#[test]
fn pack_keeps_the_low_bits_only() {
    let p = random_poly(0xffff);
    let mut low = p;
    for c in low.coeffs.iter_mut() {
        *c &= 0x3ff;
    }
    assert_eq!(packed(&p, 10), packed(&low, 10));
    assert_eq!(unpack_poly(&packed(&p, 10), 0, 10).coeffs, low.coeffs);
}

#[test]
fn unpack_undoes_pack_at_every_width() {
    for w in 1..=16usize {
        let mask = (((1u32 << w) - 1) & 0xffff) as u16;
        let p = random_poly(mask);
        let bytes = packed(&p, w);
        assert_eq!(bytes.len(), 32 * w);
        assert_eq!(unpack_poly(&bytes, 0, w).coeffs, p.coeffs);
    }
}

#[test]
fn pack_undoes_unpack_at_every_width() {
    for w in 1..=16usize {
        let bytes: Vec<u8> = (0..32 * w).map(|_| rand::random::<u8>()).collect();
        let p = unpack_poly(&bytes, 0, w);
        assert!(p.coeffs.iter().all(|&c| (c as u32) < (1u32 << w)));
        assert_eq!(packed(&p, w), bytes);
    }
}

#[test]
fn unpack_reads_from_the_offset() {
    let p = random_poly(0x1fff);
    let mut bytes = vec![0xaau8; 7];
    pack_poly(&p, 13, &mut bytes);
    bytes.push(0x55);
    assert_eq!(unpack_poly(&bytes, 7, 13).coeffs, p.coeffs);
}

#[test]
fn poly_bytes_round_trip() {
    let p = random_poly(0x1fff);
    let bytes = p.to_bytes();
    assert_eq!(bytes.len(), POLYBYTES);
    assert_eq!(Poly::from_bytes(&bytes).unwrap().coeffs, p.coeffs);
}

#[test]
fn compressed_vector_round_trip() {
    for _ in 0..10 {
        let v = random_vector(0x3ff);
        let bytes = v.pack_compressed();
        assert_eq!(bytes.len(), POLYVECCOMPRESSEDBYTES);
        let back = Vector::unpack_compressed(&bytes).unwrap();
        for i in 0..K {
            assert_eq!(back.polys[i].coeffs, v.polys[i].coeffs);
        }
    }
}

#[test]
fn full_vector_round_trip() {
    for _ in 0..10 {
        let v = random_vector(0x1fff);
        let bytes = v.pack_full();
        assert_eq!(bytes.len(), POLYVECBYTES);
        let back = Vector::unpack_full(&bytes).unwrap();
        for i in 0..K {
            assert_eq!(back.polys[i].coeffs, v.polys[i].coeffs);
        }
    }
}

#[test]
fn vector_is_packed_element_by_element() {
    let v = random_vector(0x3ff);
    let bytes = v.pack_compressed();
    for i in 0..K {
        assert_eq!(&bytes[320 * i..320 * (i + 1)], &packed(&v.polys[i], 10)[..]);
    }
}

fn bad_length(name: &'static str, actual: usize, expected: usize) -> Error {
    Error::BadLengthError { name, actual, expected }
}

#[test]
fn poly_of_wrong_length_is_refused() {
    assert_eq!(Poly::from_bytes(&[0u8; 415]).err(), Some(bad_length("Poly", 415, 416)));
    assert_eq!(Poly::from_bytes(&[0u8; 417]).err(), Some(bad_length("Poly", 417, 416)));
    assert_eq!(Poly::from_bytes(&[]).err(), Some(bad_length("Poly", 0, 416)));
    assert!(Poly::from_bytes(&[0u8; 416]).is_ok());
}

#[test]
fn vector_of_wrong_length_is_refused() {
    assert_eq!(
        Vector::unpack_compressed(&[0u8; 959]).err(),
        Some(bad_length("Vector", 959, 960))
    );
    assert_eq!(
        Vector::unpack_compressed(&[0u8; 961]).err(),
        Some(bad_length("Vector", 961, 960))
    );
    assert_eq!(Vector::unpack_full(&[0u8; 1247]).err(), Some(bad_length("Vector", 1247, 1248)));
    assert_eq!(Vector::unpack_full(&[0u8; 1249]).err(), Some(bad_length("Vector", 1249, 1248)));
    assert!(Vector::unpack_compressed(&[0u8; 960]).is_ok());
    assert!(Vector::unpack_full(&[0u8; 1248]).is_ok());
}

#[test]
fn public_key_of_wrong_length_is_refused() {
    assert_eq!(
        PublicKey::from_bytes(&[0u8; PUBLICKEYBYTES - 1]).err(),
        Some(bad_length("PublicKey", 991, 992))
    );
    assert_eq!(
        PublicKey::from_bytes(&[0u8; PUBLICKEYBYTES + 1]).err(),
        Some(bad_length("PublicKey", 993, 992))
    );
    let bytes: Vec<u8> = (0..PUBLICKEYBYTES).map(|i| i as u8).collect();
    let pk = PublicKey::from_bytes(&bytes).unwrap();
    assert_eq!(pk.as_slice(), &bytes[..]);
    assert_eq!(&pk.as_bytes()[..], &bytes[..]);
    assert_eq!(&pk.to_bytes()[..], &bytes[..]);
}

#[test]
fn secret_key_of_wrong_length_is_refused() {
    assert_eq!(
        SecretKey::from_bytes(&[0u8; SECRETKEYBYTES - 1]).err(),
        Some(bad_length("SecretKey", 1247, 1248))
    );
    assert_eq!(
        SecretKey::from_bytes(&[0u8; SECRETKEYBYTES + 1]).err(),
        Some(bad_length("SecretKey", 1249, 1248))
    );
    let bytes: Vec<u8> = (0..SECRETKEYBYTES).map(|i| (i * 7) as u8).collect();
    let sk = SecretKey::from_bytes(&bytes).unwrap();
    assert_eq!(sk.as_slice(), &bytes[..]);
    assert_eq!(&sk.as_bytes()[..], &bytes[..]);
    assert_eq!(&sk.to_bytes()[..], &bytes[..]);
}

#[test]
fn ciphertext_of_wrong_length_is_refused() {
    assert_eq!(
        ciphertext_from_bytes(&[0u8; BYTES_CCA_DEC - 1]).err(),
        Some(bad_length("Ciphertext", 1087, 1088))
    );
    assert_eq!(
        ciphertext_from_bytes(&[0u8; BYTES_CCA_DEC + 1]).err(),
        Some(bad_length("Ciphertext", 1089, 1088))
    );
    let bytes: Vec<u8> = (0..BYTES_CCA_DEC).map(|i| (i * 3) as u8).collect();
    assert_eq!(&ciphertext_from_bytes(&bytes).unwrap()[..], &bytes[..]);
}
