use secp256k1::{Scalar, SecretKey};
use semi_honest_ecdsa::scalars::{
    assign_add, bytes_from_scalar, non_constant_time_shift, normalize_s, random_scalar,
    scalar_mul_by_256, secp256k1_scalar_add, secp256k1_scalar_add_assign,
    secp256k1_scalar_check_overflow, secp256k1_scalar_double, secp256k1_scalar_inverse,
    secp256k1_scalar_is_high, secp256k1_scalar_mul, secp256k1_scalar_negate,
    secp256k1_scalar_reduce_512, secp256k1_scalar_set_b32, secp256k1_scalar_sqr,
};

const ORDER: [u64; 4] = [
    0xBFD25E8CD0364141,
    0xBAAEDCE6AF48A03B,
    0xFFFFFFFFFFFFFFFE,
    0xFFFFFFFFFFFFFFFF,
];

fn secret(x: &[u64; 4]) -> SecretKey {
    SecretKey::from_slice(&bytes_from_scalar(x)[..]).unwrap()
}

#[test]
fn scalar_add_basic() {
    let a = [0, 1, 2, 3];
    let b = [4, 5, 6, 7];
    let c = [4, 6, 8, 10];
    let mut r = [0u64; 4];
    secp256k1_scalar_add(&mut r, &a, &b);
    assert_eq!(c, r);
}

#[test]
fn scalar_add_overflows_byte_bound_0() {
    let a = [!0u64, 1, 2, 0u64];
    let b = [1u64, 5, 6, 1];
    let c = [0u64, 7, 8, 1];
    let mut r = [0u64; 4];
    let overflowed = secp256k1_scalar_add(&mut r, &a, &b);
    assert!(!overflowed);
    assert_eq!(c, r);
}

#[test]
fn scalar_add_overflows_byte_bound_1() {
    let a = [0, !0u64, 1, 2];
    let b = [1, 1u64, 5, 6];
    let c = [1, 0, 7, 8];
    let mut r = [0u64; 4];
    let overflowed = secp256k1_scalar_add(&mut r, &a, &b);
    assert!(!overflowed);
    assert_eq!(c, r);
}

#[test]
fn scalar_add_overflows_byte_bound_2() {
    let a = [2, 0, !0u64, 1];
    let b = [6, 1, 1u64, 5];
    let c = [8, 1, 0, 7];
    let mut r = [0u64; 4];
    let overflowed = secp256k1_scalar_add(&mut r, &a, &b);
    assert!(!overflowed);
    assert_eq!(c, r);
}

#[test]
fn scalar_add_negate_zero_random() {
    let a = random_scalar();
    let mut b = a.clone();
    secp256k1_scalar_negate(&mut b);
    secp256k1_scalar_add_assign(&mut b, &a);
    let r = [0u64; 4];
    assert_eq!(b, r);
}

#[test]
fn scalar_add_negate_ones() {
    let a = [1; 4];
    let mut b = a.clone();
    secp256k1_scalar_negate(&mut b);
    secp256k1_scalar_add_assign(&mut b, &a);
    let r = [0u64; 4];
    assert_eq!(b, r);
}

#[test]
fn scalar_double_flows() {
    let mut a = [1 << 63, 0, 0, 0];
    secp256k1_scalar_double(&mut a);
    assert_eq!(a, [0, 1, 0, 0]);
}

#[test]
fn scalar_non_constant_time_shift() {
    let mut a = [1, 0, 0, 0];
    non_constant_time_shift(&mut a, 8);
    assert_eq!(a, [0, 1, 0, 0]);

    let mut a = [1, 0, 1, 0];
    non_constant_time_shift(&mut a, 8);
    assert_eq!(a, [0, 1, 0, 1]);
}

#[test]
fn scalar_add_compat() {
    let alpha = random_scalar();
    let s_alpha = secret(&alpha);
    let beta = random_scalar();
    let s_beta = secret(&beta);
    let mut r = [0u64; 4];
    secp256k1_scalar_add(&mut r, &alpha, &beta);
    let s_r = secret(&r);
    let sum = s_alpha.add_tweak(&Scalar::from(s_beta)).unwrap();
    assert_eq!(sum, s_r);
}

#[test]
fn ser_de() {
    let x = random_scalar();
    let b32 = bytes_from_scalar(&x);
    let y = secp256k1_scalar_set_b32(&b32);
    assert_eq!(x, y);
}

#[test]
fn assign_add_correct() {
    let mut x = random_scalar();
    let y = random_scalar();
    let mut xs = [x; 256];
    assign_add(&mut xs, &y);
    secp256k1_scalar_add_assign(&mut x, &y);
    assert_eq!(&xs[..], &[x; 256][..]);
}

#[test]
fn scalar_mul_by_256_correct() {
    let x = [1, 0, 0, 0];
    let y = scalar_mul_by_256(&x);
    let v: Vec<_> = (0..256).map(|i| [i, 0, 0, 0]).collect();
    assert_eq!(v, &y[..]);
}

#[test]
fn scalar_mul_correct() {
    let alpha = random_scalar();
    let s_alpha = secret(&alpha);
    let beta = random_scalar();
    let s_beta = secret(&beta);
    let r = secp256k1_scalar_mul(&alpha, &beta);
    let s_r = secret(&r);
    let product = s_alpha.mul_tweak(&Scalar::from(s_beta)).unwrap();
    assert_eq!(product, s_r);
}

#[test]
fn scalar_sqr_correct() {
    let alpha = random_scalar();
    let s_alpha = secret(&alpha);
    let r = secp256k1_scalar_sqr(&alpha);
    let s_r = secret(&r);
    let square = s_alpha.mul_tweak(&Scalar::from(s_alpha)).unwrap();
    assert_eq!(square, s_r);
}

#[test]
fn scalar_inv_correct() {
    let alpha = random_scalar();
    let r = secp256k1_scalar_inverse(&alpha);
    let check = secp256k1_scalar_mul(&alpha, &r);
    assert_eq!(check, [1, 0, 0, 0]);
}

#[test]
fn set_b32_reduces_order_and_above() {
    let n = bytes_from_scalar(&ORDER);
    assert_eq!(secp256k1_scalar_set_b32(&n), [0, 0, 0, 0]);
    let all_ones = [0xFFu8; 32];
    // 2^256 - 1 - n = 0x14551231950B75FC4402DA1732FC9BEBE
    assert_eq!(
        secp256k1_scalar_set_b32(&all_ones),
        [0x402DA1732FC9BEBE, 0x4551231950B75FC4, 1, 0]
    );
}

#[test]
fn set_b32_of_to_bytes_is_canonical() {
    let b = [0xFFu8; 32];
    let s = secp256k1_scalar_set_b32(&b);
    assert_eq!(secp256k1_scalar_set_b32(&bytes_from_scalar(&s)), s);
}

#[test]
fn bytes_are_big_endian() {
    let b = bytes_from_scalar(&[0x0102030405060708, 0, 0, 0x1112131415161718]);
    assert_eq!(&b[0..8], &[0x11, 0x12, 0x13, 0x14, 0x15, 0x16, 0x17, 0x18]);
    assert_eq!(&b[24..32], &[1, 2, 3, 4, 5, 6, 7, 8]);
}

#[test]
fn check_overflow_at_order() {
    let below = [ORDER[0] - 1, ORDER[1], ORDER[2], ORDER[3]];
    assert!(secp256k1_scalar_check_overflow(&ORDER));
    assert!(!secp256k1_scalar_check_overflow(&below));
    assert!(secp256k1_scalar_check_overflow(&[!0u64; 4]));
}

#[test]
fn negate_zero_is_zero() {
    let mut z = [0u64; 4];
    secp256k1_scalar_negate(&mut z);
    assert_eq!(z, [0, 0, 0, 0]);
    let mut one = [1u64, 0, 0, 0];
    secp256k1_scalar_negate(&mut one);
    assert_eq!(one, [ORDER[0] - 1, ORDER[1], ORDER[2], ORDER[3]]);
}

#[test]
fn add_wraps_at_order() {
    let minus_one = [ORDER[0] - 1, ORDER[1], ORDER[2], ORDER[3]];
    let mut r = [0u64; 4];
    let overflowed = secp256k1_scalar_add(&mut r, &minus_one, &[2, 0, 0, 0]);
    assert!(overflowed);
    assert_eq!(r, [1, 0, 0, 0]);
}

#[test]
fn mul_minus_one_squared_is_one() {
    let minus_one = [ORDER[0] - 1, ORDER[1], ORDER[2], ORDER[3]];
    assert_eq!(secp256k1_scalar_mul(&minus_one, &minus_one), [1, 0, 0, 0]);
    assert_eq!(secp256k1_scalar_sqr(&minus_one), [1, 0, 0, 0]);
    assert_eq!(secp256k1_scalar_mul(&[3, 0, 0, 0], &[5, 0, 0, 0]), [15, 0, 0, 0]);
}

#[test]
fn reduce_512_of_order_times_two_plus_three() {
    // 2n + 3 as eight limbs reduces to 3.
    let mut l = [0u64; 8];
    let mut carry = 0u128;
    for i in 0..4 {
        let t = (ORDER[i] as u128) * 2 + carry + if i == 0 { 3 } else { 0 };
        l[i] = t as u64;
        carry = t >> 64;
    }
    l[4] = carry as u64;
    assert_eq!(secp256k1_scalar_reduce_512(&l), [3, 0, 0, 0]);
}

#[test]
fn inverse_of_two() {
    let inv = secp256k1_scalar_inverse(&[2, 0, 0, 0]);
    assert_eq!(secp256k1_scalar_mul(&inv, &[2, 0, 0, 0]), [1, 0, 0, 0]);
    assert_eq!(secp256k1_scalar_inverse(&[1, 0, 0, 0]), [1, 0, 0, 0]);
}

#[test]
fn normalize_s_halves() {
    let half = [0xDFE92F46681B20A0, 0x5D576E7357A4501D, 0xFFFFFFFFFFFFFFFF, 0x7FFFFFFFFFFFFFFF];
    assert!(!secp256k1_scalar_is_high(&half));
    assert_eq!(normalize_s(&half), half);
    let above = [half[0] + 1, half[1], half[2], half[3]];
    assert!(secp256k1_scalar_is_high(&above));
    let mut expected = above;
    secp256k1_scalar_negate(&mut expected);
    assert_eq!(normalize_s(&above), expected);
    assert_eq!(expected, half);
}
