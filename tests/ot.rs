use semi_honest_ecdsa::ot::receiver::get_s;
use semi_honest_ecdsa::ot::sender::send_s;
use semi_honest_ecdsa::ot::{oracle, xor_cipher, OtError};
use semi_honest_ecdsa::twopc::public_key;
use semi_honest_ecdsa::scalars::{generate_key, secp256k1_scalar_set_b32};

fn nonzero_scalar() -> [u64; 4] {
    loop {
        if let Some(k) = generate_key() {
            return k;
        }
    }
}

/// Runs one transfer in process and returns the receiver's plaintext.
fn transfer(msgs: &[[u8; 32]], choice: u8) -> [u8; 32] {
    let sender = send_s::new(&nonzero_scalar()).unwrap();
    let s = sender.message();
    let sender = sender.next();
    let receiver = get_s::new(choice, &nonzero_scalar()).next(&s).unwrap();
    let r = receiver.message();
    let receiver = receiver.next();
    let (_, block) = sender.next(&r).unwrap().next(msgs).unwrap();
    assert_eq!(block.len(), 8192);
    receiver.next(&block).unwrap().decipher().0
}

#[allow(non_snake_case)]
#[test]
fn OT() {
    let mut v = vec![[0u8; 32]; 256];
    for (i, m) in v.iter_mut().enumerate() {
        m[31] = i as u8;
    }
    let mut v_orig = [0u8; 32];
    for x in 0..=255u8 {
        let got = transfer(&v, x);
        v_orig[31] = x;
        assert_eq!(secp256k1_scalar_set_b32(&got), secp256k1_scalar_set_b32(&v_orig));
    }
}

#[test]
fn ot_random_table_every_choice() {
    let table: Vec<[u8; 32]> = (0..256).map(|_| rand::random::<[u8; 32]>()).collect();
    for c in [0u8, 1, 2, 127, 128, 254, 255] {
        assert_eq!(transfer(&table, c), table[c as usize]);
    }
}

#[test]
fn receiver_rejects_generator() {
    let g = public_key(&[1, 0, 0, 0]).unwrap();
    let r = get_s::new(3, &nonzero_scalar()).next(&g);
    assert!(matches!(r, Err(OtError::TrivialKey)));
}

#[test]
fn receiver_rejects_non_point() {
    let mut bad = [0u8; 33];
    bad[0] = 0x05;
    let r = get_s::new(3, &nonzero_scalar()).next(&bad);
    assert!(matches!(r, Err(OtError::InvalidPoint)));
}

#[test]
fn receiver_rejects_short_block() {
    let sender = send_s::new(&nonzero_scalar()).unwrap();
    let s = sender.message();
    let receiver = get_s::new(9, &nonzero_scalar()).next(&s).unwrap().next();
    let r = receiver.next(&[0u8; 100]);
    assert!(matches!(r, Err(OtError::WrongLength)));
}

#[test]
fn sender_needs_nonzero_secret() {
    assert!(send_s::new(&[0u64; 4]).is_none());
}

#[test]
fn oracle_gives_a_point_with_prefix_two() {
    let g = public_key(&[1, 0, 0, 0]).unwrap();
    let t = oracle(&g).unwrap();
    assert_eq!(t[0], 2);
    assert!(secp256k1::PublicKey::from_slice(&t).is_ok());
    assert_ne!(t, g);
}

#[test]
fn xor_cipher_is_its_own_inverse() {
    let m = [0x5Au8; 32];
    let k = [0xFFu8; 32];
    let c = xor_cipher(&m, &k);
    assert_eq!(c, [0xA5u8; 32]);
    assert_eq!(xor_cipher(&c, &k), m);
}

#[test]
fn sender_rejects_non_point() {
    let sender = send_s::new(&nonzero_scalar()).unwrap().next();
    let mut bad = [0u8; 33];
    bad[0] = 0x04;
    assert!(matches!(sender.next(&bad), Err(OtError::InvalidPoint)));
}
