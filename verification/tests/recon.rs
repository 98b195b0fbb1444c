use saber::params::{KEYBYTES, N};
use saber::poly::Poly;
use saber::recon::{msg2pol, pol2msg, recon, recon_data_gen, RECON_BIAS, RECON_BITS, RECON_SHIFT};
use saber::saber::{MSG2POL_CONST, RECONBYTES_KEM};

#[test]
fn constants_of_reconciliation() {
    assert_eq!(RECON_BITS, 4);
    assert_eq!(RECON_SHIFT, 6);
    assert_eq!(RECON_BIAS, 224);
    assert_eq!(MSG2POL_CONST, 9);
    assert_eq!(RECONBYTES_KEM, 128);
}

#[test]
fn message_bits_become_coefficients() {
    let mut message = [0u8; KEYBYTES];
    message[0] = 0b0000_0101;
    message[31] = 0x80;
    let p = msg2pol(&message);
    let mut expected = [0u16; N];
    expected[0] = 1;
    expected[2] = 1;
    expected[255] = 1;
    assert_eq!(p.coeffs, expected);
}

#[test]
fn lowest_bits_become_the_message() {
    let mut coeffs = [0u16; N];
    coeffs[0] = 1;
    coeffs[9] = 3;
    coeffs[10] = 2;
    coeffs[255] = 0xffff;
    let message = pol2msg(&Poly { coeffs });
    let mut expected = [0u8; KEYBYTES];
    expected[0] = 1;
    expected[1] = 0b0000_0010;
    expected[31] = 0x80;
    assert_eq!(message, expected);
}

#[test]
fn message_round_trip() {
    for _ in 0..20 {
        let message = rand::random::<[u8; KEYBYTES]>();
        assert_eq!(pol2msg(&msg2pol(&message)), message);
    }
}

#[test]
fn reconciliation_data_keep_bits_six_to_nine() {
    let mut coeffs = [0u16; N];
    coeffs[0] = 0x03c0;
    coeffs[1] = 0x0040;
    coeffs[2] = 0xfc3f;
    coeffs[3] = 0x0280;
    let rec = recon_data_gen(&Poly { coeffs });
    assert_eq!(rec[0], 0x1f);
    assert_eq!(rec[1], 0xa0);
    assert!(rec[2..].iter().all(|&b| b == 0));
}

fn with_error(vp: &Poly, error: i32) -> Poly {
    let mut coeffs = [0u16; N];
    for i in 0..N {
        coeffs[i] = ((vp.coeffs[i] as i32 - error).rem_euclid(1 << 16)) as u16;
    }
    Poly { coeffs }
}

#[test]
fn reconciliation_undoes_every_error_up_to_the_bound() {
    let message = rand::random::<[u8; KEYBYTES]>();
    let mut coeffs = [0u16; N];
    for c in coeffs.iter_mut() {
        *c = rand::random::<u16>();
    }
    let vp = Poly { coeffs };
    let rec = recon_data_gen(&((msg2pol(&message) << MSG2POL_CONST) + vp));
    for error in -224..=224 {
        let v = with_error(&vp, error);
        assert_eq!(pol2msg(&recon(&v, &rec)), message);
    }
}

#[test]
fn reconciliation_reads_modulo_p() {
    let message = [0xa5u8; KEYBYTES];
    let vp = Poly { coeffs: [0x1234; N] };
    let rec = recon_data_gen(&((msg2pol(&message) << MSG2POL_CONST) + vp));
    let v = Poly { coeffs: [0x1234 & 0x3ff; N] };
    assert_eq!(pol2msg(&recon(&v, &rec)), message);
}

#[test]
fn reconciliation_fails_beyond_the_bound() {
    let message = [0u8; KEYBYTES];
    let vp = Poly { coeffs: [0; N] };
    let rec = recon_data_gen(&((msg2pol(&message) << MSG2POL_CONST) + vp));
    let v = with_error(&vp, 300);
    assert_ne!(pol2msg(&recon(&v, &rec)), message);
}

#[test]
fn reconciliation_bit_of_given_values() {
    let mut coeffs = [0u16; N];
    coeffs[0] = 100;
    coeffs[1] = 100;
    let v = Poly { coeffs };
    let mut rec = [0u8; RECONBYTES_KEM];
    rec[0] = 0x19;
    let m = recon(&v, &rec);
    assert_eq!(m.coeffs[0], 1);
    assert_eq!(m.coeffs[1], 0);
}
