use sha2::Digest;
use semi_honest_ecdsa::mult::{lsb_first_choices, scale_free_receiver_share, scale_free_rows, scale_free_sender_share};
use semi_honest_ecdsa::ot::receiver::get_s;
use semi_honest_ecdsa::ot::sender::send_s;
use semi_honest_ecdsa::scalars::{
    generate_key,
    bytes_from_scalar, random_scalar, secp256k1_scalar_add_assign, secp256k1_scalar_inverse,
    secp256k1_scalar_mul, secp256k1_scalar_set_b32,
};
use semi_honest_ecdsa::twopc::{
    assemble_signature, assign_role, finish_signature, public_key, shared_nonce_point, follower_cross_term, is_leader, joint_public_key,
    key_challenge, leader_own_part, tweaked_key, x_coordinate, SignError,
};

const HALF_ORDER: [u64; 4] =
    [0xDFE92F46681B20A0, 0x5D576E7357A4501D, 0xFFFFFFFFFFFFFFFF, 0x7FFFFFFFFFFFFFFF];

fn nonzero_scalar() -> [u64; 4] {
    loop {
        if let Some(k) = generate_key() {
            return k;
        }
    }
}

fn transfer(row: &[[u64; 4]; 256], choice: u8) -> [u64; 4] {
    let msgs: Vec<[u8; 32]> = row.iter().map(bytes_from_scalar).collect();
    let sender = send_s::new(&nonzero_scalar()).unwrap();
    let s = sender.message();
    let sender = sender.next();
    let receiver = get_s::new(choice, &nonzero_scalar()).next(&s).unwrap();
    let r = receiver.message();
    let receiver = receiver.next();
    let (_, block) = sender.next(&r).unwrap().next(&msgs).unwrap();
    receiver.next(&block).unwrap().decipher_scalar()
}

/// One scale-free conversion: (sender's share, receiver's share).
fn convert(alpha: &[u64; 4], beta: &[u64; 4]) -> ([u64; 4], [u64; 4]) {
    let mut neg_phis = [[0u64; 4]; 32];
    for x in neg_phis.iter_mut() {
        *x = random_scalar();
    }
    let rows = scale_free_rows(alpha, &neg_phis);
    let choices = lsb_first_choices(beta);
    let mut received = [[0u64; 4]; 32];
    for k in 0..32 {
        received[k] = transfer(&rows[k], choices[k]);
    }
    (scale_free_sender_share(&neg_phis), scale_free_receiver_share(&received))
}

struct Party {
    key: [u64; 4],
    pk: [u8; 33],
    nonce: [u64; 4],
}

fn party(key: [u64; 4]) -> Party {
    let pk = public_key(&key).unwrap();
    Party { key, pk, nonce: nonzero_scalar() }
}

/// Both parties' runs, in process; returns each side's outcome and its joint key.
fn sign_pair(m: &[u64; 4], a: &Party, b: &Party) -> Vec<(Result<[u8; 64], SignError>, [u8; 33])> {
    let a_leads = is_leader(&a.pk, &b.pk);
    assert_eq!(a_leads, !is_leader(&b.pk, &a.pk));
    let (l, f) = if a_leads { (a, b) } else { (b, a) };
    let h_l = key_challenge(&l.pk, &f.pk, &l.pk);
    let h_f = key_challenge(&l.pk, &f.pk, &f.pk);
    let x_l = tweaked_key(&l.key, &h_l);
    let x_f = tweaked_key(&f.key, &h_f);
    let joint_l = joint_public_key(&x_l, &f.pk, &h_f).unwrap();
    let joint_f = joint_public_key(&x_f, &l.pk, &h_l).unwrap();
    assert_eq!(joint_l, joint_f);

    let q_l = secp256k1_scalar_inverse(&l.nonce);
    let q_f = secp256k1_scalar_inverse(&f.nonce);
    let k_g = public_key(&l.nonce).unwrap();
    let kk_g = shared_nonce_point(&k_g, &f.nonce).unwrap();
    let r = secp256k1_scalar_set_b32(&x_coordinate(&kk_g));

    let g0 = leader_own_part(&x_l, &r, m, &q_l);
    let kx = follower_cross_term(&x_f, &r);
    let (g2, g1) = convert(&kx, &q_l);
    let mut gamma1 = g1;
    secp256k1_scalar_add_assign(&mut gamma1, &g0);
    let gamma1_in = secp256k1_scalar_mul(&q_f, &g2);
    let (t0, t1) = convert(&gamma1, &q_f);
    let mut s_1 = t1;
    secp256k1_scalar_add_assign(&mut s_1, &gamma1_in);

    let mut s_leader = s_1;
    secp256k1_scalar_add_assign(&mut s_leader, &t0);
    let mut s_follower = t0;
    secp256k1_scalar_add_assign(&mut s_follower, &s_1);
    vec![
        (finish_signature(&r, &s_leader, m, &joint_l), joint_l),
        (finish_signature(&r, &s_follower, m, &joint_f), joint_f),
    ]
}

fn check_with_library(m: &[u64; 4], sig: &[u8; 64], pk: &[u8; 33]) {
    let secp = secp256k1::Secp256k1::verification_only();
    let msg = secp256k1::Message::from_slice(&bytes_from_scalar(m)).unwrap();
    let s = secp256k1::ecdsa::Signature::from_compact(&sig[..]).unwrap();
    let p = secp256k1::PublicKey::from_slice(&pk[..]).unwrap();
    assert!(secp.verify_ecdsa(&msg, &s, &p).is_ok());
    let low = secp256k1_scalar_set_b32(&sig[32..64].try_into().unwrap());
    let hb = bytes_from_scalar(&HALF_ORDER);
    let lb = bytes_from_scalar(&low);
    assert!(lb <= hb);
}

#[test]
fn do_test() {
    let m = [1u64, 2, 3, 4];
    let a = party(nonzero_scalar());
    let b = party(nonzero_scalar());
    for (res, pk) in sign_pair(&m, &a, &b) {
        let sig = res.unwrap();
        check_with_library(&m, &sig, &pk);
    }
}

#[test]
fn signing_with_random_message() {
    let m = random_scalar();
    let a = party(nonzero_scalar());
    let b = party(nonzero_scalar());
    let out = sign_pair(&m, &a, &b);
    assert_eq!(out[0].0, out[1].0);
    for (res, pk) in out {
        check_with_library(&m, &res.unwrap(), &pk);
    }
}

#[test]
fn role_symmetry() {
    let m = [1u64, 2, 3, 4];
    let a = party(nonzero_scalar());
    let b = party(nonzero_scalar());
    let swapped_a = Party { key: b.key, pk: b.pk, nonce: a.nonce };
    let swapped_b = Party { key: a.key, pk: a.pk, nonce: b.nonce };
    for (res, pk) in sign_pair(&m, &swapped_a, &swapped_b) {
        check_with_library(&m, &res.unwrap(), &pk);
    }
}

#[test]
fn leader_is_larger_key() {
    let mut a = [2u8; 33];
    let mut b = [2u8; 33];
    a[5] = 9;
    b[5] = 8;
    b[6] = 0xFF;
    assert!(is_leader(&a, &b));
    assert!(!is_leader(&b, &a));
    assert!(!is_leader(&a, &a));
}

#[test]
fn assembled_signature_is_low_s() {
    let r = [5u64, 0, 0, 0];
    let high = [HALF_ORDER[0] + 1, HALF_ORDER[1], HALF_ORDER[2], HALF_ORDER[3]];
    let (sig, low) = assemble_signature(&r, &high);
    assert_eq!(low, HALF_ORDER);
    assert_eq!(&sig[0..32], &bytes_from_scalar(&r)[..]);
    assert_eq!(&sig[32..64], &bytes_from_scalar(&HALF_ORDER)[..]);
}

#[test]
fn wrong_share_fails_verification() {
    let m = [1u64, 2, 3, 4];
    let key = nonzero_scalar();
    let pk = public_key(&key).unwrap();
    let res = finish_signature(&[1, 0, 0, 0], &[1, 0, 0, 0], &m, &pk);
    assert_eq!(res, Err(SignError::VerificationFailed));
}

#[test]
fn x_coordinate_drops_prefix() {
    let mut p = [0u8; 33];
    for (i, b) in p.iter_mut().enumerate() {
        *b = i as u8;
    }
    let x = x_coordinate(&p);
    assert_eq!(x[0], 1);
    assert_eq!(x[31], 32);
}

#[test]
fn roles_reject_bad_peer_keys() {
    let a = party(nonzero_scalar());
    let b = party(nonzero_scalar());
    assert_eq!(assign_role(&a.pk, &a.pk), Err(SignError::IdenticalKeys));
    let mut bad = [0u8; 33];
    bad[0] = 7;
    assert_eq!(assign_role(&a.pk, &bad), Err(SignError::MalformedPeerData));
    let ra = assign_role(&a.pk, &b.pk).unwrap();
    let rb = assign_role(&b.pk, &a.pk).unwrap();
    assert_ne!(ra, rb);
}

#[test]
fn public_key_matches_curve_library() {
    let key = nonzero_scalar();
    let pk = public_key(&key).unwrap();
    let secp = secp256k1::Secp256k1::new();
    let sk = secp256k1::SecretKey::from_slice(&bytes_from_scalar(&key)).unwrap();
    assert_eq!(pk, secp256k1::PublicKey::from_secret_key(&secp, &sk).serialize());
    assert!(public_key(&[0, 0, 0, 0]).is_none());
}

#[test]
fn key_challenge_is_sha256_of_sha256() {
    let a = [2u8; 33];
    let b = [3u8; 33];
    let l = sha2::Sha256::digest([&a[..], &b[..]].concat());
    let expected = sha2::Sha256::digest([&l[..], &a[..]].concat());
    assert_eq!(&key_challenge(&a, &b, &a)[..], &expected[..]);
}
