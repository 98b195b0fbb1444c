use saber::params::{N, NOISE_SEEDBYTES, POLYBYTES, SEEDBYTES};
use saber::poly::Poly;
use saber::saber::K;
use saber::sampler::{
    binomial_four, gen_matrix, gen_secret, load_littleendian, matrix_from_stream,
    secret_from_stream, MATRIX_STREAM_BYTES, SECRET_STREAM_BYTES,
};
use sha3::digest::{ExtendableOutput, Input, XofReader};

#[test]
fn load_littleendian_reads_lowest_byte_first() {
    assert_eq!(load_littleendian(&[0x78, 0x56, 0x34, 0x12]), 0x12345678);
    assert_eq!(load_littleendian(&[0, 0, 0, 0]), 0);
    assert_eq!(load_littleendian(&[0xff, 0xff, 0xff, 0xff]), 0xffff_ffff);
    assert_eq!(load_littleendian(&[1, 0, 0, 0]), 1);
    assert_eq!(load_littleendian(&[0, 0, 0, 0x80]), 0x8000_0000);
}

#[test]
fn binomial_coefficients_are_differences_of_bit_counts() {
    assert_eq!(binomial_four(&[0x00, 0x0f, 0xf0, 0xff]), [0, 4, 0xfffc, 0]);
    assert_eq!(binomial_four(&[0x31, 0x13, 0x07, 0x80]), [0xffff, 1, 3, 0xffff]);
    for _ in 0..100 {
        let word = rand::random::<[u8; 4]>();
        let four = binomial_four(&word);
        for k in 0..4 {
            let low = (word[k] & 0x0f).count_ones() as u16;
            let high = (word[k] >> 4).count_ones() as u16;
            assert_eq!(four[k], low.wrapping_sub(high));
        }
    }
}

#[test]
fn sizes_of_the_streams() {
    assert_eq!(MATRIX_STREAM_BYTES, K * K * POLYBYTES);
    assert_eq!(MATRIX_STREAM_BYTES, 3744);
    assert_eq!(SECRET_STREAM_BYTES, 768);
}

#[test]
fn secret_from_stream_reads_byte_by_byte() {
    let stream: Vec<u8> = (0..SECRET_STREAM_BYTES).map(|i| (i * 37 + 11) as u8).collect();
    let s = secret_from_stream(&stream);
    for i in 0..K {
        for j in 0..N {
            let byte = stream[N * i + j];
            let expected =
                ((byte & 0x0f).count_ones() as u16).wrapping_sub((byte >> 4).count_ones() as u16);
            assert_eq!(s.polys[i].coeffs[j], expected);
        }
    }
}

#[test]
fn matrix_from_stream_reads_slot_by_slot() {
    let stream: Vec<u8> = (0..MATRIX_STREAM_BYTES).map(|_| rand::random::<u8>()).collect();
    let m = matrix_from_stream(&stream);
    for i in 0..K {
        for j in 0..K {
            let slot = K * i + j;
            let expected =
                Poly::from_bytes(&stream[slot * POLYBYTES..(slot + 1) * POLYBYTES]).unwrap();
            assert_eq!(m.vecs[i].polys[j].coeffs, expected.coeffs);
        }
    }
}

#[test]
fn gen_secret_follows_the_shake128_stream_of_the_seed() {
    let seed: [u8; NOISE_SEEDBYTES] = core::array::from_fn(|i| (3 * i + 1) as u8);
    let mut hasher = sha3::Shake128::default();
    hasher.input(&seed[..]);
    let mut xof = hasher.xof_result();
    let secret = gen_secret(&seed);
    for i in 0..K {
        for j in (0..N).step_by(4) {
            let mut buf = [0u8; 4];
            xof.read(&mut buf);
            assert_eq!(&secret.polys[i].coeffs[j..j + 4], &binomial_four(&buf)[..]);
        }
    }
}

#[test]
fn gen_matrix_follows_the_shake128_stream_of_the_seed() {
    let seed: [u8; SEEDBYTES] = core::array::from_fn(|i| (5 * i + 2) as u8);
    let mut hasher = sha3::Shake128::default();
    hasher.input(&seed[..]);
    let mut xof = hasher.xof_result();
    let matrix = gen_matrix(&seed);
    for i in 0..K {
        for j in 0..K {
            let mut buf = [0u8; POLYBYTES];
            xof.read(&mut buf);
            let expected = Poly::from_bytes(&buf).unwrap();
            assert_eq!(matrix.vecs[i].polys[j].coeffs, expected.coeffs);
        }
    }
}

#[test]
fn gen_secret_of_the_zero_seed_starts_as_shake128_does() {
    let secret = gen_secret(&[0u8; NOISE_SEEDBYTES]);
    let stream = sha3::Shake128::default().chain(&[0u8; 32][..]).vec_result(768);
    assert_ne!(&stream[..32], &[0u8; 32][..]);
    let expected = secret_from_stream(&stream);
    for i in 0..K {
        assert_eq!(secret.polys[i].coeffs, expected.polys[i].coeffs);
    }
}

#[test]
fn matrix_coefficients_are_below_q_and_secret_coefficients_small() {
    let matrix = gen_matrix(&[9u8; SEEDBYTES]);
    let secret = gen_secret(&[9u8; NOISE_SEEDBYTES]);
    let mut seen_nonzero = false;
    for i in 0..K {
        for k in 0..N {
            let c = secret.polys[i].coeffs[k] as i16;
            assert!((-4..=4).contains(&c));
            seen_nonzero |= c != 0;
            for j in 0..K {
                assert!(matrix.vecs[i].polys[j].coeffs[k] < 0x2000);
            }
        }
    }
    assert!(seen_nonzero);
}

#[test]
fn different_seeds_give_different_values() {
    let a = gen_matrix(&[1u8; SEEDBYTES]);
    let b = gen_matrix(&[2u8; SEEDBYTES]);
    assert_ne!(a.vecs[0].polys[0].coeffs, b.vecs[0].polys[0].coeffs);
    let s = gen_secret(&[1u8; NOISE_SEEDBYTES]);
    let t = gen_secret(&[2u8; NOISE_SEEDBYTES]);
    assert_ne!(s.polys[0].coeffs, t.polys[0].coeffs);
    let again = gen_secret(&[1u8; NOISE_SEEDBYTES]);
    assert_eq!(s.polys[2].coeffs, again.polys[2].coeffs);
}
