use std::collections::VecDeque;

use semi_honest_ecdsa::mult::{
    bench_scale_free_mult, lsb_first_choices, scale_free_receiver_share, scale_free_rows,
    scale_free_sender_share,
};
use semi_honest_ecdsa::scalars::{
    generate_key, random_scalar, secp256k1_scalar_add_assign, secp256k1_scalar_inverse,
    secp256k1_scalar_mul,
};
use semi_honest_ecdsa::session::{
    awaited_message_len, message_event, start, step, Action, Event, Session,
};
use semi_honest_ecdsa::twopc::{public_key, SignError};

fn nonzero_scalar() -> [u64; 4] {
    loop {
        if let Some(k) = generate_key() {
            return k;
        }
    }
}

enum Pending {
    Sender([u64; 4]),
    Receiver([u64; 4]),
}

struct Side {
    state: Option<Session>,
    nonce: [u64; 4],
    inbox: VecDeque<Vec<u8>>,
    events: VecDeque<Event>,
    pending: Option<Pending>,
    outcome: Option<Result<[u8; 64], SignError>>,
}

fn side(key: [u64; 4], m: &[u64; 4]) -> (Side, Vec<Action>) {
    let nonce = nonzero_scalar();
    let (state, first) = start(&key, &nonce, m).unwrap();
    let s = Side {
        state: Some(state),
        nonce,
        inbox: VecDeque::new(),
        events: VecDeque::new(),
        pending: None,
        outcome: None,
    };
    (s, vec![first])
}

/// Carries out a side's actions; bytes go to the other side's inbox.
fn perform(me: &mut Side, other: &mut Side, actions: Vec<Action>) {
    for a in actions {
        match a {
            Action::Send(b) => other.inbox.push_back(b),
            Action::FetchNonceInverse => {
                me.events.push_back(Event::NonceInverse(secp256k1_scalar_inverse(&me.nonce)))
            }
            Action::ConvertAsSender(alpha) => me.pending = Some(Pending::Sender(alpha)),
            Action::ConvertAsReceiver(beta) => me.pending = Some(Pending::Receiver(beta)),
            Action::Signed(sig) => me.outcome = Some(Ok(sig)),
            Action::Failed(e) => me.outcome = Some(Err(e)),
        }
    }
}

/// Feeds one waiting event or message to a side; whether it moved.
fn advance(me: &mut Side, other: &mut Side) -> bool {
    let state = match me.state.take() {
        Some(s) => s,
        None => return false,
    };
    let event = if let Some(ev) = me.events.pop_front() {
        Some(ev)
    } else if awaited_message_len(&state).is_some() && !me.inbox.is_empty() {
        let msg = me.inbox.pop_front().unwrap();
        Some(message_event(&state, &msg).expect("a message of the awaited length"))
    } else {
        None
    };
    match event {
        Some(ev) => {
            let (next, acts) = step(state, ev);
            me.state = if me.outcome.is_none() { Some(next) } else { None };
            perform(me, other, acts);
            if me.outcome.is_some() {
                me.state = None;
            }
            true
        }
        None => {
            me.state = Some(state);
            false
        }
    }
}

/// Runs a conversion between the two sides when both have asked for one.
fn convert(a: &mut Side, b: &mut Side) -> bool {
    let (alpha, beta, a_sends) = match (&a.pending, &b.pending) {
        (Some(Pending::Sender(x)), Some(Pending::Receiver(y))) => (*x, *y, true),
        (Some(Pending::Receiver(y)), Some(Pending::Sender(x))) => (*x, *y, false),
        _ => return false,
    };
    let (sa, sb) = bench_scale_free_mult(&alpha, &beta).unwrap();
    a.pending = None;
    b.pending = None;
    if a_sends {
        a.events.push_back(Event::Converted(sa));
        b.events.push_back(Event::Converted(sb));
    } else {
        a.events.push_back(Event::Converted(sb));
        b.events.push_back(Event::Converted(sa));
    }
    true
}

fn run_pair(m: &[u64; 4], key_a: [u64; 4], key_b: [u64; 4]) -> (Result<[u8; 64], SignError>, Result<[u8; 64], SignError>) {
    let (mut a, acts_a) = side(key_a, m);
    let (mut b, acts_b) = side(key_b, m);
    perform(&mut a, &mut b, acts_a);
    perform(&mut b, &mut a, acts_b);
    loop {
        let moved = advance(&mut a, &mut b) | advance(&mut b, &mut a) | convert(&mut a, &mut b);
        if a.outcome.is_some() && b.outcome.is_some() {
            break;
        }
        assert!(moved, "the run stalled");
    }
    (a.outcome.unwrap(), b.outcome.unwrap())
}

/// A signature out of a run is in low-s form.
fn check_low_s(sig: &[u8; 64]) {
    let s = secp256k1::ecdsa::Signature::from_compact(&sig[..]).unwrap();
    let mut normalized = s;
    normalized.normalize_s();
    assert_eq!(s, normalized);
}

#[test]
fn session_signs_fixed_message() {
    let m = [1u64, 2, 3, 4];
    let (ra, rb) = run_pair(&m, nonzero_scalar(), nonzero_scalar());
    let (sa, sb) = (ra.unwrap(), rb.unwrap());
    assert_eq!(sa, sb);
    check_low_s(&sa);
}

#[test]
fn session_roles_swapped() {
    let m = random_scalar();
    let k1 = nonzero_scalar();
    let k2 = nonzero_scalar();
    let (r1, _) = run_pair(&m, k1, k2);
    let (r2, _) = run_pair(&m, k2, k1);
    check_low_s(&r1.unwrap());
    check_low_s(&r2.unwrap());
}

#[test]
fn session_rejects_identical_keys() {
    let m = [1u64, 2, 3, 4];
    let k = nonzero_scalar();
    let (ra, rb) = run_pair(&m, k, k);
    assert_eq!(ra, Err(SignError::IdenticalKeys));
    assert_eq!(rb, Err(SignError::IdenticalKeys));
}

#[test]
fn session_rejects_event_out_of_order() {
    let m = [1u64, 2, 3, 4];
    let (state, _) = start(&nonzero_scalar(), &nonzero_scalar(), &m).unwrap();
    let (next, acts) = step(state, Event::Converted([1, 0, 0, 0]));
    assert!(matches!(next, Session::Done));
    assert!(matches!(acts.as_slice(), [Action::Failed(SignError::OutOfOrder)]));
}

#[test]
fn session_first_message_is_public_key() {
    let m = [1u64, 2, 3, 4];
    let key = nonzero_scalar();
    let (state, first) = start(&key, &nonzero_scalar(), &m).unwrap();
    match first {
        Action::Send(b) => assert_eq!(b, public_key(&key).unwrap().to_vec()),
        _ => panic!("the first action sends the public key"),
    }
    assert_eq!(awaited_message_len(&state), Some(33));
    assert!(message_event(&state, &[0u8; 32]).is_none());
    assert!(start(&[0, 0, 0, 0], &key, &m).is_none());
    assert!(start(&key, &[0, 0, 0, 0], &m).is_none());
}

#[test]
fn scale_free_pieces_compose() {
    let alpha = random_scalar();
    let mut neg_phis = [[0u64; 4]; 32];
    for x in neg_phis.iter_mut() {
        *x = random_scalar();
    }
    let rows = scale_free_rows(&alpha, &neg_phis);
    assert_eq!(rows.len(), 32);
    let c = lsb_first_choices(&[5, 0, 0, 0]);
    assert_eq!(c[0], 5);
    let mut received = [[0u64; 4]; 32];
    for k in 0..32 {
        received[k] = rows[k][c[k] as usize];
    }
    let mut s = scale_free_sender_share(&neg_phis);
    secp256k1_scalar_add_assign(&mut s, &scale_free_receiver_share(&received));
    assert_eq!(s, secp256k1_scalar_mul(&alpha, &[5, 0, 0, 0]));
}

#[test]
fn session_random_trials() {
    for _ in 0..4 {
        let m = random_scalar();
        let (ra, rb) = run_pair(&m, nonzero_scalar(), nonzero_scalar());
        let sa = ra.unwrap();
        assert_eq!(Ok(sa), rb);
        check_low_s(&sa);
    }
}

#[test]
fn session_rejects_malformed_peer_key() {
    let m = [1u64, 2, 3, 4];
    let (state, _) = start(&nonzero_scalar(), &nonzero_scalar(), &m).unwrap();
    let (next, acts) = step(state, Event::PeerKey([0x05u8; 33]));
    assert!(matches!(next, Session::Done));
    assert!(matches!(acts.as_slice(), [Action::Failed(SignError::MalformedPeerData)]));
}

#[test]
fn message_event_keeps_bytes() {
    let m = [1u64, 2, 3, 4];
    let (state, _) = start(&nonzero_scalar(), &nonzero_scalar(), &m).unwrap();
    let mut bytes = [0u8; 33];
    bytes[0] = 2;
    bytes[32] = 9;
    match message_event(&state, &bytes) {
        Some(Event::PeerKey(p)) => assert_eq!(p, bytes),
        _ => panic!("a peer key event"),
    }
}
