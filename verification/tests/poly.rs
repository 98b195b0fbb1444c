use saber::params::N;
use saber::poly::Poly;

fn random_poly() -> Poly {
    let mut coeffs = [0u16; N];
    for c in coeffs.iter_mut() {
        *c = rand::random::<u16>();
    }
    Poly { coeffs }
}

fn monomial(degree: usize, coeff: u16) -> Poly {
    let mut coeffs = [0u16; N];
    coeffs[degree] = coeff;
    Poly { coeffs }
}

fn schoolbook(a: &Poly, b: &Poly) -> [u16; N] {
    let mut out = [0u16; N];
    for i in 0..N {
        for j in 0..N {
            let prod = a.coeffs[i].wrapping_mul(b.coeffs[j]);
            if i + j < N {
                out[i + j] = out[i + j].wrapping_add(prod);
            } else {
                out[i + j - N] = out[i + j - N].wrapping_sub(prod);
            }
        }
    }
    out
}

#[test]
fn default_is_zero() {
    assert_eq!(Poly::default().coeffs, [0u16; N]);
}

#[test]
fn addition_wraps() {
    let a = Poly { coeffs: [0xffff; N] };
    let b = Poly { coeffs: [2; N] };
    assert_eq!((a + b).coeffs, [1u16; N]);
    let mut c = [0u16; N];
    c[3] = 10;
    let mut d = [0u16; N];
    d[3] = 32;
    d[4] = 1;
    let sum = Poly { coeffs: c } + Poly { coeffs: d };
    assert_eq!(sum.coeffs[3], 42);
    assert_eq!(sum.coeffs[4], 1);
    assert_eq!(sum.coeffs[5], 0);
}

#[test]
fn subtraction_wraps() {
    let a = Poly { coeffs: [1; N] };
    let b = Poly { coeffs: [3; N] };
    assert_eq!((a - b).coeffs, [0xfffeu16; N]);
    let p = random_poly();
    let q = random_poly();
    assert_eq!(((p + q) - q).coeffs, p.coeffs);
}

#[test]
fn scalar_addition_wraps() {
    let a = Poly { coeffs: [0xfffe; N] };
    assert_eq!((a + 4u16).coeffs, [2u16; N]);
}

#[test]
fn shift_right_divides() {
    let mut coeffs = [0u16; N];
    coeffs[0] = 0xffff;
    coeffs[1] = 8;
    coeffs[2] = 7;
    let p = Poly { coeffs };
    let r = p >> 3;
    assert_eq!(&r.coeffs[..3], &[0x1fff, 1, 0]);
    assert_eq!((p >> 0).coeffs, p.coeffs);
    assert_eq!((p >> 15).coeffs[0], 1);
    assert_eq!((p >> 16).coeffs, [0u16; N]);
    assert_eq!((p >> 200).coeffs, [0u16; N]);
}

#[test]
fn shift_left_multiplies_and_wraps() {
    let mut coeffs = [0u16; N];
    coeffs[0] = 1;
    coeffs[1] = 0x00ff;
    coeffs[2] = 0x8001;
    let p = Poly { coeffs };
    let r = p << 9;
    assert_eq!(&r.coeffs[..3], &[0x0200, 0xfe00, 0x0200]);
    assert_eq!((p << 0).coeffs, p.coeffs);
    assert_eq!((p << 16).coeffs, [0u16; N]);
    assert_eq!((p << 255).coeffs, [0u16; N]);
}

#[test]
fn rounding_adds_four_and_drops_three_bits() {
    let mut coeffs = [0u16; N];
    coeffs[0] = 3;
    coeffs[1] = 4;
    coeffs[2] = 0x1fff;
    coeffs[3] = 0xfffc;
    let r = (Poly { coeffs } + 4u16) >> 3;
    assert_eq!(&r.coeffs[..4], &[0, 1, 0x400, 0]);
}

#[test]
fn multiplication_by_one_changes_nothing() {
    let p = random_poly();
    assert_eq!((p * monomial(0, 1)).coeffs, p.coeffs);
    assert_eq!((monomial(0, 1) * p).coeffs, p.coeffs);
}

#[test]
fn x_to_the_n_is_minus_one() {
    let r = monomial(255, 1) * monomial(1, 1);
    let mut expected = [0u16; N];
    expected[0] = 0xffff;
    assert_eq!(r.coeffs, expected);
    let r = monomial(200, 3) * monomial(100, 5);
    let mut expected = [0u16; N];
    expected[44] = 0u16.wrapping_sub(15);
    assert_eq!(r.coeffs, expected);
    let r = monomial(2, 3) * monomial(5, 7);
    let mut expected = [0u16; N];
    expected[7] = 21;
    assert_eq!(r.coeffs, expected);
}

#[test]
fn multiplication_by_x_rotates_and_negates() {
    let p = random_poly();
    let r = p * monomial(1, 1);
    assert_eq!(r.coeffs[0], 0u16.wrapping_sub(p.coeffs[N - 1]));
    for i in 1..N {
        assert_eq!(r.coeffs[i], p.coeffs[i - 1]);
    }
}

#[test]
fn multiplication_is_the_schoolbook_product() {
    for _ in 0..5 {
        let a = random_poly();
        let b = random_poly();
        assert_eq!((a * b).coeffs, schoolbook(&a, &b));
    }
}

#[test]
fn multiplication_commutes_and_distributes() {
    let a = random_poly();
    let b = random_poly();
    let c = random_poly();
    assert_eq!((a * b).coeffs, (b * a).coeffs);
    assert_eq!((a * (b + c)).coeffs, (a * b + a * c).coeffs);
    assert_eq!(((a * b) * c).coeffs, (a * (b * c)).coeffs);
}
