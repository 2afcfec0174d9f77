use secp256k1::{Scalar, SecretKey};
use semi_honest_ecdsa::mult::{
    bench_scale_free_mult, bench_scaled_mult,
    legacy_receiver_share, legacy_rows, legacy_sender_share, lsb_first_choices,
    msb_first_choices, scale_free_receiver_share, scale_free_rows, scale_free_sender_share,
};
use semi_honest_ecdsa::ot::receiver::get_s;
use semi_honest_ecdsa::ot::sender::send_s;
use semi_honest_ecdsa::scalars::{
    generate_key,
    bytes_from_scalar, random_scalar, secp256k1_scalar_add_assign, secp256k1_scalar_mul,
};

fn nonzero_scalar() -> [u64; 4] {
    loop {
        if let Some(k) = generate_key() {
            return k;
        }
    }
}

fn transfer(row: &[[u64; 4]; 256], choice: u8) -> [u64; 4] {
    let msgs: Vec<[u8; 32]> = row.iter().map(bytes_from_scalar).collect();
    let sender = send_s::new(&nonzero_scalar()).unwrap();
    let s = sender.message();
    let sender = sender.next();
    let receiver = get_s::new(choice, &nonzero_scalar()).next(&s).unwrap();
    let r = receiver.message();
    let receiver = receiver.next();
    let (_, block) = sender.next(&r).unwrap().next(&msgs).unwrap();
    receiver.next(&block).unwrap().decipher_scalar()
}

fn verify_shares(a: [u64; 4], b: [u64; 4], mut s_a: [u64; 4], s_b: [u64; 4]) {
    let sa = SecretKey::from_slice(&bytes_from_scalar(&a)).unwrap();
    let sb = SecretKey::from_slice(&bytes_from_scalar(&b)).unwrap();
    secp256k1_scalar_add_assign(&mut s_a, &s_b);
    let sum = SecretKey::from_slice(&bytes_from_scalar(&s_a)).unwrap();
    assert_eq!(sa.mul_tweak(&Scalar::from(sb)).unwrap(), sum);
    assert_eq!(s_a, secp256k1_scalar_mul(&a, &b));
}

fn masks() -> [[u64; 4]; 32] {
    let mut m = [[0u64; 4]; 32];
    for x in m.iter_mut() {
        *x = random_scalar();
    }
    m
}

fn run_scale_free(alpha: &[u64; 4], beta: &[u64; 4]) -> ([u64; 4], [u64; 4]) {
    let neg_phis = masks();
    let rows = scale_free_rows(alpha, &neg_phis);
    let share_a = scale_free_sender_share(&neg_phis);
    let choices = lsb_first_choices(beta);
    let mut received = [[0u64; 4]; 32];
    for k in 0..32 {
        received[k] = transfer(&rows[k], choices[k]);
    }
    (share_a, scale_free_receiver_share(&received))
}

fn run_legacy(alpha: &[u64; 4], beta: &[u64; 4]) -> ([u64; 4], [u64; 4]) {
    let neg_phis = masks();
    let rows = legacy_rows(alpha, &neg_phis);
    let share_a = legacy_sender_share(&neg_phis);
    let choices = msb_first_choices(beta);
    let mut received = [[0u64; 4]; 32];
    for k in 0..32 {
        received[k] = transfer(&rows[k], choices[k]);
    }
    (share_a, legacy_receiver_share(&received))
}

#[test]
fn mult_works() {
    let a = random_scalar();
    let b = random_scalar();
    let (s_a, s_b) = bench_scaled_mult(&a, &b).unwrap();
    verify_shares(a, b, s_a, s_b);
}

#[test]
fn scale_free() {
    let a = random_scalar();
    let b = random_scalar();
    let (s_a, s_b) = bench_scale_free_mult(&a, &b).unwrap();
    verify_shares(a, b, s_a, s_b);
}

#[test]
fn stepwise_legacy_conversion() {
    let a = random_scalar();
    let b = random_scalar();
    let (s_a, s_b) = run_legacy(&a, &b);
    verify_shares(a, b, s_a, s_b);
}

#[test]
fn stepwise_scale_free_conversion() {
    let a = random_scalar();
    let b = random_scalar();
    let (s_a, s_b) = run_scale_free(&a, &b);
    verify_shares(a, b, s_a, s_b);
}

#[test]
fn shares_without_transfers_add_up() {
    // The rows picked directly, without transfers, still give alpha * beta.
    let alpha = [7u64, 0, 0, 0];
    let beta = [0x0102u64, 0, 0, 0x0300000000000000];
    let neg_phis = masks();
    let rows = scale_free_rows(&alpha, &neg_phis);
    let choices = lsb_first_choices(&beta);
    assert_eq!(choices[0], 0x02);
    assert_eq!(choices[1], 0x01);
    assert_eq!(choices[31], 0x03);
    let mut received = [[0u64; 4]; 32];
    for k in 0..32 {
        received[k] = rows[k][choices[k] as usize];
    }
    let mut s = scale_free_sender_share(&neg_phis);
    secp256k1_scalar_add_assign(&mut s, &scale_free_receiver_share(&received));
    assert_eq!(s, secp256k1_scalar_mul(&alpha, &beta));
    assert_eq!(s, [0x070e, 0, 0, 0x1500000000000000]);
}

#[test]
fn legacy_rows_without_transfers_add_up() {
    let alpha = random_scalar();
    let beta = random_scalar();
    let neg_phis = masks();
    let rows = legacy_rows(&alpha, &neg_phis);
    let choices = msb_first_choices(&beta);
    let mut received = [[0u64; 4]; 32];
    for k in 0..32 {
        received[k] = rows[k][choices[k] as usize];
    }
    let mut s = legacy_sender_share(&neg_phis);
    secp256k1_scalar_add_assign(&mut s, &legacy_receiver_share(&received));
    assert_eq!(s, secp256k1_scalar_mul(&alpha, &beta));
}
