//! One party's signing run as a state machine. The caller feeds in what
//! arrives (the peer's messages, the nonce inverse computed in the
//! background, the share a conversion produced) and carries out the actions
//! that come back (send bytes, run a conversion as sender or receiver, fetch
//! the nonce inverse). Every decision of the run is taken here.
use vstd::prelude::*;

use crate::curve::{base_mul, ecdsa_valid, is_point, point_add, point_mul, sum_defined};
use crate::scalars::{
    bytes_from_scalar, group_order, half_order, is_reduced, scalar, scalar_to_bytes,
    secp256k1_scalar_add_assign, secp256k1_scalar_mul, secp256k1_scalar_set_b32, val4, w1, w2, w3,
};
use crate::twopc::{
    assign_role, challenge, compact_signature, finish_signature, follower_cross_term,
    joint_public_key, key_challenge, leader_own_part, lex_greater, low_s_value, public_key,
    shared_nonce_point, tweaked_key, x_coordinate, SignError,
};

verus! {

/// Where a party stands in its run.
pub enum Session {
    /// Our public key has gone out; waiting for the peer's.
    AwaitPeerKey { key: scalar, my_pk: [u8; 33], nonce: scalar, m: scalar },
    /// Leader: `k_l * G` has gone out; waiting for the x-coordinate of the
    /// joint nonce point.
    LeaderAwaitX { tweaked: scalar, joint: [u8; 33], m: scalar },
    /// Leader: waiting for the inverse of its nonce.
    LeaderAwaitInverse { tweaked: scalar, joint: [u8; 33], m: scalar, r: scalar },
    /// Leader: receiving in the first conversion.
    LeaderAwaitG1 { joint: [u8; 33], m: scalar, r: scalar, g0: scalar },
    /// Leader: sending in the second conversion.
    LeaderAwaitT0 { joint: [u8; 33], m: scalar, r: scalar },
    /// Leader: its share `t0` has gone out; waiting for the follower's.
    LeaderAwaitShare { joint: [u8; 33], m: scalar, r: scalar, t0: scalar },
    /// Follower: waiting for the leader's `k_l * G`.
    FollowerAwaitNonce { tweaked: scalar, joint: [u8; 33], nonce: scalar, m: scalar },
    /// Follower: sending in the first conversion.
    FollowerAwaitG2 { joint: [u8; 33], m: scalar, r: scalar },
    /// Follower: waiting for the inverse of its nonce.
    FollowerAwaitInverse { joint: [u8; 33], m: scalar, r: scalar, g2: scalar },
    /// Follower: receiving in the second conversion.
    FollowerAwaitT1 { joint: [u8; 33], m: scalar, r: scalar, gamma1_in: scalar },
    /// Follower: its share has gone out; waiting for the leader's.
    FollowerAwaitShare { joint: [u8; 33], m: scalar, r: scalar, s1: scalar },
    /// The run is over.
    Done,
}

/// What arrives.
pub enum Event {
    /// The peer's public key.
    PeerKey([u8; 33]),
    /// The leader's nonce point `k_l * G`.
    PeerNoncePoint([u8; 33]),
    /// 32 bytes from the peer: the nonce x-coordinate or a final share.
    PeerBytes([u8; 32]),
    /// The inverse of our nonce.
    NonceInverse(scalar),
    /// Our share from the conversion last asked for.
    Converted(scalar),
}

/// What the caller is to do.
pub enum Action {
    /// Send these bytes to the peer.
    Send(Vec<u8>),
    /// Fetch the inverse of our nonce and hand it back.
    FetchNonceInverse,
    /// Run a conversion as receiver with this `beta` and hand back our share.
    ConvertAsReceiver(scalar),
    /// Run a conversion as sender with this `alpha` and hand back our share.
    ConvertAsSender(scalar),
    /// The run ended with this signature, which verifies.
    Signed([u8; 64]),
    /// The run ended with this failure.
    Failed(SignError),
}

/// Every scalar a state holds is reduced.
pub open spec fn scalar_ok(s: Session) -> bool {
    match s {
        Session::AwaitPeerKey { key, my_pk, nonce, m } => is_reduced(key) && is_reduced(nonce)
            && is_reduced(m) && val4(nonce) != 0,
        Session::LeaderAwaitX { tweaked, joint, m } => is_reduced(tweaked) && is_reduced(m),
        Session::LeaderAwaitInverse { tweaked, joint, m, r } => is_reduced(tweaked) && is_reduced(m)
            && is_reduced(r),
        Session::LeaderAwaitG1 { joint, m, r, g0 } => is_reduced(m) && is_reduced(r) && is_reduced(g0),
        Session::LeaderAwaitT0 { joint, m, r } => is_reduced(m) && is_reduced(r),
        Session::LeaderAwaitShare { joint, m, r, t0 } => is_reduced(m) && is_reduced(r) && is_reduced(t0),
        Session::FollowerAwaitNonce { tweaked, joint, nonce, m } => is_reduced(tweaked) && is_reduced(m)
            && is_reduced(nonce) && val4(nonce) != 0,
        Session::FollowerAwaitG2 { joint, m, r } => is_reduced(m) && is_reduced(r),
        Session::FollowerAwaitInverse { joint, m, r, g2 } => is_reduced(m) && is_reduced(r) && is_reduced(g2),
        Session::FollowerAwaitT1 { joint, m, r, gamma1_in } => is_reduced(m) && is_reduced(r)
            && is_reduced(gamma1_in),
        Session::FollowerAwaitShare { joint, m, r, s1 } => is_reduced(m) && is_reduced(r) && is_reduced(s1),
        Session::Done => true,
    }
}

/// Every scalar an event carries is reduced.
pub open spec fn event_ok(e: Event) -> bool {
    match e {
        Event::NonceInverse(q) => is_reduced(q),
        Event::Converted(s) => is_reduced(s),
        _ => true,
    }
}

/// The message scalar of a state that still has one.
pub open spec fn message_of(s: Session) -> Option<scalar> {
    match s {
        Session::AwaitPeerKey { m, .. } => Some(m),
        Session::LeaderAwaitX { m, .. } => Some(m),
        Session::LeaderAwaitInverse { m, .. } => Some(m),
        Session::LeaderAwaitG1 { m, .. } => Some(m),
        Session::LeaderAwaitT0 { m, .. } => Some(m),
        Session::LeaderAwaitShare { m, .. } => Some(m),
        Session::FollowerAwaitNonce { m, .. } => Some(m),
        Session::FollowerAwaitG2 { m, .. } => Some(m),
        Session::FollowerAwaitInverse { m, .. } => Some(m),
        Session::FollowerAwaitT1 { m, .. } => Some(m),
        Session::FollowerAwaitShare { m, .. } => Some(m),
        Session::Done => None,
    }
}

/// The joint public key of a state past the key exchange.
pub open spec fn joint_of(s: Session) -> Option<[u8; 33]> {
    match s {
        Session::LeaderAwaitX { joint, .. } => Some(joint),
        Session::LeaderAwaitInverse { joint, .. } => Some(joint),
        Session::LeaderAwaitG1 { joint, .. } => Some(joint),
        Session::LeaderAwaitT0 { joint, .. } => Some(joint),
        Session::LeaderAwaitShare { joint, .. } => Some(joint),
        Session::FollowerAwaitNonce { joint, .. } => Some(joint),
        Session::FollowerAwaitG2 { joint, .. } => Some(joint),
        Session::FollowerAwaitInverse { joint, .. } => Some(joint),
        Session::FollowerAwaitT1 { joint, .. } => Some(joint),
        Session::FollowerAwaitShare { joint, .. } => Some(joint),
        _ => None,
    }
}

/// Our public key, in the state that waits for the peer's.
pub open spec fn own_key_of(s: Session) -> Seq<u8> {
    match s {
        Session::AwaitPeerKey { my_pk, .. } => my_pk@,
        _ => Seq::empty(),
    }
}

/// The key a peer-key event carries.
pub open spec fn peer_key_of(e: Event) -> Seq<u8> {
    match e {
        Event::PeerKey(pk) => pk@,
        _ => Seq::empty(),
    }
}

/// Starts a run: our key and nonce, the message; the first action sends our
/// public key. There is no run for a zero key or a zero nonce.
pub fn start(key: &scalar, nonce: &scalar, m: &scalar) -> (res: Option<(Session, Action)>)
    requires
        is_reduced(*key),
        is_reduced(*nonce),
        is_reduced(*m),
    ensures
        res.is_some() == (val4(*key) != 0 && val4(*nonce) != 0),
        res matches Some((s, a)) ==> scalar_ok(s) && message_of(s) == Some(*m) && (s matches Session::AwaitPeerKey {
            key: k,
            my_pk,
            nonce: nn,
            m: mm,
        } && k == *key && nn == *nonce && mm == *m && my_pk@ == base_mul(scalar_to_bytes(*key)@)
            && (a matches Action::Send(b) && b@ == my_pk@)),
{
    if nonce[0] == 0 && nonce[1] == 0 && nonce[2] == 0 && nonce[3] == 0 {
        return None;
    }
    let my_pk = public_key(key)?;
    let mut out: Vec<u8> = Vec::new();
    let mut i: usize = 0;
    while i < 33
        invariant
            i <= 33,
            out@ == my_pk@.take(i as int),
        decreases 33 - i,
    {
        out.push(my_pk[i]);
        i = i + 1;
        assert(out@ =~= my_pk@.take(i as int));
    }
    assert(out@ =~= my_pk@);
    Some((Session::AwaitPeerKey { key: *key, my_pk, nonce: *nonce, m: *m }, Action::Send(out)))
}

/// The bytes of a fixed-size array as a vector.
fn to_vec<const N: usize>(b: &[u8; N]) -> (v: Vec<u8>)
    ensures
        v@ == b@,
{
    let mut v: Vec<u8> = Vec::new();
    let mut i: usize = 0;
    while i < N
        invariant
            i <= N,
            b@.len() == N,
            v@ == b@.take(i as int),
        decreases N - i,
    {
        v.push(b[i]);
        i = i + 1;
        assert(v@ =~= b@.take(i as int));
    }
    assert(v@ =~= b@);
    v
}


/// 32 bytes, most significant first, as an integer.
pub open spec fn be_of(h: Seq<u8>) -> int {
    let w = |o: int|
        h[o] * 0x100_0000_0000_0000int + h[o + 1] * 0x1_0000_0000_0000int + h[o + 2]
            * 0x100_0000_0000int + h[o + 3] * 0x1_0000_0000int + h[o + 4] * 0x100_0000int + h[o
            + 5] * 0x1_0000int + h[o + 6] * 0x100int + h[o + 7];
    w(0) * w3() + w(8) * w2() + w(16) * w1() + w(24)
}

/// This party's tweaked key: its key times its challenge read as a scalar.
pub open spec fn tweak_of(key: scalar, h: Seq<u8>) -> int {
    ((be_of(h) % group_order()) * val4(key)) % group_order()
}

/// Whether the joint key can be formed from the tweaked key `tw`, the peer's
/// key and the peer's challenge.
pub open spec fn joint_ok(tw: scalar, pk: Seq<u8>, peer_h: Seq<u8>) -> bool {
    val4(tw) != 0 && is_point(pk) && 0 < be_of(peer_h) < group_order() && sum_defined(
        base_mul(scalar_to_bytes(tw)@),
        point_mul(pk, peer_h),
    )
}

/// The joint key formed from the tweaked key `tw`, the peer's key and the
/// peer's challenge.
pub open spec fn joint_of_keys(tw: scalar, pk: Seq<u8>, peer_h: Seq<u8>) -> Seq<u8> {
    point_add(base_mul(scalar_to_bytes(tw)@), point_mul(pk, peer_h))
}

/// The only action is to send these bytes.
pub open spec fn sends_only(acts: Seq<Action>, bytes: Seq<u8>) -> bool {
    acts.len() == 1 && (acts[0] matches Action::Send(v) && v@ == bytes)
}

/// The run ends with this one failure.
pub open spec fn ends_with(next: Session, acts: Seq<Action>, e: SignError) -> bool {
    next is Done && acts == seq![Action::Failed(e)]
}

/// The end of a run that received the peer's share `peer` and holds its own
/// share `own`: the signature of `r` and the low-s form of their sum, if it
/// verifies for `m` under `joint`, and otherwise a verification failure.
pub open spec fn concluded(
    joint: [u8; 33],
    m: scalar,
    r: scalar,
    peer: [u8; 32],
    own: scalar,
    next: Session,
    acts: Seq<Action>,
) -> bool {
    next is Done && acts.len() == 1 && exists|low: scalar|
        val4(low) == low_s_value((be_of(peer@) % group_order() + val4(own)) % group_order())
            && val4(low) <= half_order() && (if ecdsa_valid(
            scalar_to_bytes(m)@,
            compact_signature(r, low),
            joint@,
        ) {
            acts[0] matches Action::Signed(sig) && sig@ == compact_signature(r, low)
        } else {
            acts[0] == Action::Failed(SignError::VerificationFailed)
        })
}

/// What `step` does: the next state and the actions for each state and
/// event, and `OutOfOrder` for an event the state does not take.
pub open spec fn step_post(s: Session, e: Event, next: Session, acts: Seq<Action>) -> bool {
    if !expects(s, e) {
        ends_with(next, acts, SignError::OutOfOrder)
    } else {
        match s {
            Session::AwaitPeerKey { key, my_pk, nonce, m } => {
                let pk = peer_key_of(e);
                if !is_point(pk) {
                    ends_with(next, acts, SignError::MalformedPeerData)
                } else if pk == my_pk@ {
                    ends_with(next, acts, SignError::IdenticalKeys)
                } else {
                    let leader = lex_greater(my_pk@, pk);
                    let lpk = if leader { my_pk@ } else { pk };
                    let fpk = if leader { pk } else { my_pk@ };
                    let peer_h = challenge(lpk, fpk, pk);
                    exists|tw: scalar|
                        is_reduced(tw) && val4(tw) == tweak_of(key, challenge(lpk, fpk, my_pk@)) && (
                        if !joint_ok(tw, pk, peer_h) {
                            ends_with(next, acts, SignError::DegenerateValue)
                        } else if leader {
                            (next matches Session::LeaderAwaitX { tweaked, joint, m: mm }
                                && tweaked == tw && joint@ == joint_of_keys(tw, pk, peer_h) && mm
                                == m) && sends_only(acts, base_mul(scalar_to_bytes(nonce)@))
                        } else {
                            (next matches Session::FollowerAwaitNonce { tweaked, joint, nonce: nn, m: mm }
                                && tweaked == tw && joint@ == joint_of_keys(tw, pk, peer_h) && nn
                                == nonce && mm == m) && acts.len() == 0
                        })
                }
            },
            Session::LeaderAwaitX { tweaked, joint, m } => match e {
                Event::PeerBytes(x) => (next matches Session::LeaderAwaitInverse {
                    tweaked: t,
                    joint: j,
                    m: mm,
                    r,
                } && t == tweaked && j == joint && mm == m && val4(r) == be_of(x@) % group_order())
                    && acts == seq![Action::FetchNonceInverse],
                _ => false,
            },
            Session::LeaderAwaitInverse { tweaked, joint, m, r } => match e {
                Event::NonceInverse(q) => (next matches Session::LeaderAwaitG1 {
                    joint: j,
                    m: mm,
                    r: rr,
                    g0,
                } && j == joint && mm == m && rr == r && val4(g0) == (val4(q) * (((val4(tweaked)
                    * val4(r)) % group_order() + val4(m)) % group_order())) % group_order()) && acts
                    == seq![Action::ConvertAsReceiver(q)],
                _ => false,
            },
            Session::LeaderAwaitG1 { joint, m, r, g0 } => match e {
                Event::Converted(g1) => (next matches Session::LeaderAwaitT0 { joint: j, m: mm, r: rr }
                    && j == joint && mm == m && rr == r) && acts.len() == 1 && (acts[0] matches Action::ConvertAsSender(
                    gamma1,
                ) && val4(gamma1) == (val4(g1) + val4(g0)) % group_order()),
                _ => false,
            },
            Session::LeaderAwaitT0 { joint, m, r } => match e {
                Event::Converted(t0) => (next matches Session::LeaderAwaitShare {
                    joint: j,
                    m: mm,
                    r: rr,
                    t0: tt,
                } && j == joint && mm == m && rr == r && tt == t0) && sends_only(
                    acts,
                    scalar_to_bytes(t0)@,
                ),
                _ => false,
            },
            Session::LeaderAwaitShare { joint, m, r, t0 } => match e {
                Event::PeerBytes(b) => concluded(joint, m, r, b, t0, next, acts),
                _ => false,
            },
            Session::FollowerAwaitNonce { tweaked, joint, nonce, m } => match e {
                Event::PeerNoncePoint(kg) => {
                    let xs = point_mul(kg@, scalar_to_bytes(nonce)@).subrange(1, 33);
                    if !is_point(kg@) {
                        ends_with(next, acts, SignError::MalformedPeerData)
                    } else {
                        (next matches Session::FollowerAwaitG2 { joint: j, m: mm, r } && j == joint
                            && mm == m && val4(r) == be_of(xs) % group_order() && acts.len() == 2
                            && (acts[0] matches Action::Send(v) && v@ == xs) && (acts[1] matches Action::ConvertAsSender(
                            kx,
                        ) && val4(kx) == (val4(tweaked) * val4(r)) % group_order()))
                    }
                },
                _ => false,
            },
            Session::FollowerAwaitG2 { joint, m, r } => match e {
                Event::Converted(g2) => (next matches Session::FollowerAwaitInverse {
                    joint: j,
                    m: mm,
                    r: rr,
                    g2: gg,
                } && j == joint && mm == m && rr == r && gg == g2) && acts == seq![
                    Action::FetchNonceInverse,
                ],
                _ => false,
            },
            Session::FollowerAwaitInverse { joint, m, r, g2 } => match e {
                Event::NonceInverse(q) => (next matches Session::FollowerAwaitT1 {
                    joint: j,
                    m: mm,
                    r: rr,
                    gamma1_in,
                } && j == joint && mm == m && rr == r && val4(gamma1_in) == (val4(q) * val4(g2))
                    % group_order()) && acts == seq![Action::ConvertAsReceiver(q)],
                _ => false,
            },
            Session::FollowerAwaitT1 { joint, m, r, gamma1_in } => match e {
                Event::Converted(t1) => (next matches Session::FollowerAwaitShare {
                    joint: j,
                    m: mm,
                    r: rr,
                    s1,
                } && j == joint && mm == m && rr == r && val4(s1) == (val4(t1) + val4(gamma1_in))
                    % group_order() && sends_only(acts, scalar_to_bytes(s1)@)),
                _ => false,
            },
            Session::FollowerAwaitShare { joint, m, r, s1 } => match e {
                Event::PeerBytes(b) => concluded(joint, m, r, b, s1, next, acts),
                _ => false,
            },
            Session::Done => false,
        }
    }
}

/// A single action.
fn one(a: Action) -> (v: Vec<Action>)
    ensures
        v@ == seq![a],
{
    let mut v: Vec<Action> = Vec::new();
    v.push(a);
    assert(v@ =~= seq![a]);
    v
}

/// The run ends with a failure.
fn fail(e: SignError) -> (res: (Session, Vec<Action>))
    ensures
        res.0 is Done,
        res.1@ == seq![Action::Failed(e)],
{
    (Session::Done, one(Action::Failed(e)))
}

/// Whether a state takes an event of this kind.
pub open spec fn expects(s: Session, e: Event) -> bool {
    match s {
        Session::AwaitPeerKey { .. } => e is PeerKey,
        Session::LeaderAwaitX { .. } => e is PeerBytes,
        Session::LeaderAwaitInverse { .. } => e is NonceInverse,
        Session::LeaderAwaitG1 { .. } => e is Converted,
        Session::LeaderAwaitT0 { .. } => e is Converted,
        Session::LeaderAwaitShare { .. } => e is PeerBytes,
        Session::FollowerAwaitNonce { .. } => e is PeerNoncePoint,
        Session::FollowerAwaitG2 { .. } => e is Converted,
        Session::FollowerAwaitInverse { .. } => e is NonceInverse,
        Session::FollowerAwaitT1 { .. } => e is Converted,
        Session::FollowerAwaitShare { .. } => e is PeerBytes,
        Session::Done => false,
    }
}

/// Finishes the run with the summed signature scalar.
fn conclude(joint: &[u8; 33], m: &scalar, r: &scalar, peer: &[u8; 32], own: &scalar) -> (res: (
    Session,
    Vec<Action>,
))
    requires
        is_reduced(*own),
    ensures
        concluded(*joint, *m, *r, *peer, *own, res.0, res.1@),
        res.1@[0] matches Action::Signed(sig) ==> ecdsa_valid(scalar_to_bytes(*m)@, sig@, joint@),
{
    let mut s = secp256k1_scalar_set_b32(peer);
    secp256k1_scalar_add_assign(&mut s, own);
    match finish_signature(r, &s, m, joint) {
        Ok(sig) => (Session::Done, one(Action::Signed(sig))),
        Err(e) => fail(e),
    }
}

/// Takes one event and gives the next state and what to do.
pub fn step(s: Session, e: Event) -> (res: (Session, Vec<Action>))
    requires
        scalar_ok(s),
        event_ok(e),
    ensures
        scalar_ok(res.0),
        !expects(s, e) ==> res.0 is Done && res.1@ == seq![Action::Failed(SignError::OutOfOrder)],
        res.0 !is Done ==> message_of(res.0) == message_of(s),
        forall|i: int|
            0 <= i < res.1@.len() ==> (#[trigger] res.1@[i] matches Action::Signed(sig)
                ==> (message_of(s) matches Some(m) && joint_of(s) matches Some(j) && ecdsa_valid(
                scalar_to_bytes(m)@,
                sig@,
                j@,
            ))),
        step_post(s, e, res.0, res.1@),
{
    match s {
        Session::AwaitPeerKey { key, my_pk, nonce, m } => {
            let pk = match e {
                Event::PeerKey(pk) => pk,
                _ => return fail(SignError::OutOfOrder),
            };
            let leader = match assign_role(&my_pk, &pk) {
                Ok(l) => l,
                Err(err) => return fail(err),
            };
            let (lpk, fpk) = if leader { (my_pk, pk) } else { (pk, my_pk) };
            let my_h = key_challenge(&lpk, &fpk, &my_pk);
            let peer_h = key_challenge(&lpk, &fpk, &pk);
            let tweaked = tweaked_key(&key, &my_h);
            let joint = match joint_public_key(&tweaked, &pk, &peer_h) {
                Some(j) => j,
                None => return fail(SignError::DegenerateValue),
            };
            if leader {
                let kg = match public_key(&nonce) {
                    Some(p) => p,
                    None => return fail(SignError::DegenerateValue),
                };
                (Session::LeaderAwaitX { tweaked, joint, m }, one(Action::Send(to_vec(&kg))))
            } else {
                (Session::FollowerAwaitNonce { tweaked, joint, nonce, m }, Vec::new())
            }
        },
        Session::LeaderAwaitX { tweaked, joint, m } => {
            let x = match e {
                Event::PeerBytes(x) => x,
                _ => return fail(SignError::OutOfOrder),
            };
            let r = secp256k1_scalar_set_b32(&x);
            (Session::LeaderAwaitInverse { tweaked, joint, m, r }, one(Action::FetchNonceInverse))
        },
        Session::LeaderAwaitInverse { tweaked, joint, m, r } => {
            let q = match e {
                Event::NonceInverse(q) => q,
                _ => return fail(SignError::OutOfOrder),
            };
            let g0 = leader_own_part(&tweaked, &r, &m, &q);
            (Session::LeaderAwaitG1 { joint, m, r, g0 }, one(Action::ConvertAsReceiver(q)))
        },
        Session::LeaderAwaitG1 { joint, m, r, g0 } => {
            let g1 = match e {
                Event::Converted(g1) => g1,
                _ => return fail(SignError::OutOfOrder),
            };
            let mut gamma1 = g1;
            secp256k1_scalar_add_assign(&mut gamma1, &g0);
            (Session::LeaderAwaitT0 { joint, m, r }, one(Action::ConvertAsSender(gamma1)))
        },
        Session::LeaderAwaitT0 { joint, m, r } => {
            let t0 = match e {
                Event::Converted(t0) => t0,
                _ => return fail(SignError::OutOfOrder),
            };
            let b = bytes_from_scalar(&t0);
            (Session::LeaderAwaitShare { joint, m, r, t0 }, one(Action::Send(to_vec(&b))))
        },
        Session::LeaderAwaitShare { joint, m, r, t0 } => {
            let b = match e {
                Event::PeerBytes(b) => b,
                _ => return fail(SignError::OutOfOrder),
            };
            conclude(&joint, &m, &r, &b, &t0)
        },
        Session::FollowerAwaitNonce { tweaked, joint, nonce, m } => {
            let kg = match e {
                Event::PeerNoncePoint(kg) => kg,
                _ => return fail(SignError::OutOfOrder),
            };
            let kkg = match shared_nonce_point(&kg, &nonce) {
                Some(p) => p,
                None => return fail(SignError::MalformedPeerData),
            };
            let x = x_coordinate(&kkg);
            let r = secp256k1_scalar_set_b32(&x);
            let kx = follower_cross_term(&tweaked, &r);
            let mut acts = one(Action::Send(to_vec(&x)));
            acts.push(Action::ConvertAsSender(kx));
            (Session::FollowerAwaitG2 { joint, m, r }, acts)
        },
        Session::FollowerAwaitG2 { joint, m, r } => {
            let g2 = match e {
                Event::Converted(g2) => g2,
                _ => return fail(SignError::OutOfOrder),
            };
            (Session::FollowerAwaitInverse { joint, m, r, g2 }, one(Action::FetchNonceInverse))
        },
        Session::FollowerAwaitInverse { joint, m, r, g2 } => {
            let q = match e {
                Event::NonceInverse(q) => q,
                _ => return fail(SignError::OutOfOrder),
            };
            let gamma1_in = secp256k1_scalar_mul(&q, &g2);
            (Session::FollowerAwaitT1 { joint, m, r, gamma1_in }, one(Action::ConvertAsReceiver(q)))
        },
        Session::FollowerAwaitT1 { joint, m, r, gamma1_in } => {
            let t1 = match e {
                Event::Converted(t1) => t1,
                _ => return fail(SignError::OutOfOrder),
            };
            let mut s1 = t1;
            secp256k1_scalar_add_assign(&mut s1, &gamma1_in);
            let b = bytes_from_scalar(&s1);
            (Session::FollowerAwaitShare { joint, m, r, s1 }, one(Action::Send(to_vec(&b))))
        },
        Session::FollowerAwaitShare { joint, m, r, s1 } => {
            let b = match e {
                Event::PeerBytes(b) => b,
                _ => return fail(SignError::OutOfOrder),
            };
            conclude(&joint, &m, &r, &b, &s1)
        },
        Session::Done => fail(SignError::OutOfOrder),
    }
}

/// The length of the peer message a state waits for: 33 bytes for a point,
/// 32 for an x-coordinate or a share; none where it waits for no message.
pub open spec fn awaited_len(s: Session) -> Option<usize> {
    match s {
        Session::AwaitPeerKey { .. } => Some(33usize),
        Session::FollowerAwaitNonce { .. } => Some(33usize),
        Session::LeaderAwaitX { .. } => Some(32usize),
        Session::LeaderAwaitShare { .. } => Some(32usize),
        Session::FollowerAwaitShare { .. } => Some(32usize),
        _ => None::<usize>,
    }
}

/// How many bytes the peer's next message has, where the state waits for
/// one.
pub fn awaited_message_len(s: &Session) -> (n: Option<usize>)
    ensures
        n == awaited_len(*s),
{
    match s {
        Session::AwaitPeerKey { .. } => Some(33),
        Session::FollowerAwaitNonce { .. } => Some(33),
        Session::LeaderAwaitX { .. } => Some(32),
        Session::LeaderAwaitShare { .. } => Some(32),
        Session::FollowerAwaitShare { .. } => Some(32),
        _ => None,
    }
}

/// The event a message from the peer makes in this state: its bytes as a
/// point or as 32 bytes, as the state expects; `None` where the state waits
/// for no message or the length is not the awaited one.
pub fn message_event(s: &Session, bytes: &[u8]) -> (ev: Option<Event>)
    ensures
        ev matches Some(e) ==> expects(*s, e),
        ev matches Some(Event::PeerKey(p)) ==> p@ == bytes@,
        ev matches Some(Event::PeerNoncePoint(p)) ==> p@ == bytes@,
        ev matches Some(Event::PeerBytes(b)) ==> b@ == bytes@,
        ev is Some <==> (awaited_len(*s) matches Some(n) && bytes@.len() == n),
{
    let n = match awaited_message_len(s) {
        Some(n) => n,
        None => return None,
    };
    if bytes.len() != n {
        return None;
    }
    if n == 33 {
        let mut p = [0u8; 33];
        let mut i: usize = 0;
        while i < 33
            invariant
                i <= 33,
                bytes@.len() == 33,
                forall|j: int| 0 <= j < i ==> p[j] == bytes@[j],
            decreases 33 - i,
        {
            p[i] = bytes[i];
            i = i + 1;
        }
        assert(p@ =~= bytes@);
        match s {
            Session::AwaitPeerKey { .. } => Some(Event::PeerKey(p)),
            _ => Some(Event::PeerNoncePoint(p)),
        }
    } else {
        let mut b = [0u8; 32];
        let mut i: usize = 0;
        while i < 32
            invariant
                i <= 32,
                bytes@.len() == 32,
                forall|j: int| 0 <= j < i ==> b[j] == bytes@[j],
            decreases 32 - i,
        {
            b[i] = bytes[i];
            i = i + 1;
        }
        assert(b@ =~= bytes@);
        Some(Event::PeerBytes(b))
    }
}

} // verus!
