//! The arithmetic and the decisions of the two-party signing protocol: role
//! assignment, MuSig-style key aggregation, the signature-share algebra and
//! the final low-s signature with its verification. Moving the messages, and
//! running the two share conversions, is the caller's part.
//!
//! With nonces `k_l`, `k_f`, their inverses `q_l`, `q_f`, tweaked key shares
//! `x_l`, `x_f` and message `m`, the signature scalar is
//! `s = q_l * q_f * (m + r * (x_l + x_f))`. The leader contributes
//! `g0 = q_l * (m + r * x_l)`; a first conversion of `q_l * (r * x_f)`
//! gives shares `g1` (leader) and `g2` (follower); a second conversion of
//! `q_f * (g0 + g1)` gives `t0` (leader) and `t1` (follower); the follower
//! adds `t2 = q_f * g2`. Then `s = t0 + (t1 + t2)`.
use vstd::prelude::*;

use crate::curve::{
    add_points, base_mul, ecdsa_valid, is_point, sum_defined, is_valid_point, point_add, point_mul, public_key_of, sha256, sha256_of,
    verify_signature, mul_point,
};
use crate::ot::{bytes_eq, concat};
use crate::scalars::{
    be_val, bytes_from_scalar, group_order, half_order, is_reduced, normalize_s, scalar,
    scalar_to_bytes, secp256k1_scalar_add_assign, secp256k1_scalar_mul, secp256k1_scalar_set_b32,
    val4,
};

verus! {

/// Why a signing run failed.
#[derive(Debug, Clone, Copy, PartialEq, Eq, Structural)]
pub enum SignError {
    /// The peer sent a point equal to our own.
    IdenticalKeys,
    /// The peer sent bytes that encode no usable point or scalar.
    MalformedPeerData,
    /// A curve operation met a zero scalar or the point at infinity.
    DegenerateValue,
    /// The assembled signature does not verify: a defect, not a network event.
    VerificationFailed,
    /// A message or a result came that the run does not expect at this point.
    OutOfOrder,
    /// The message scalar to sign is not reduced modulo the order.
    UnreducedMessage,
}

/// `a` is greater than `b` in lexicographic byte order.
pub open spec fn lex_greater(a: Seq<u8>, b: Seq<u8>) -> bool {
    exists|i: int| 0 <= i < a.len() && i < b.len() && a.take(i) == b.take(i) && a[i] > b[i]
}

proof fn lemma_first_difference(a: Seq<u8>, b: Seq<u8>, n: int)
    requires
        a.len() == b.len(),
        0 <= n <= a.len(),
        a.take(n) == b.take(n),
        a != b,
    ensures
        exists|i: int| n <= i < a.len() && a.take(i) == b.take(i) && a[i] != b[i],
    decreases a.len() - n,
{
    if n == a.len() {
        assert(a =~= a.take(n));
        assert(b =~= b.take(n));
    } else if a[n] != b[n] {
        assert(n <= n < a.len() && a.take(n) == b.take(n) && a[n] != b[n]);
    } else {
        assert(a.take(n + 1) =~= a.take(n).push(a[n]));
        assert(b.take(n + 1) =~= b.take(n).push(b[n]));
        lemma_first_difference(a, b, n + 1);
    }
}

/// Role symmetry: of two distinct encodings of one length, exactly one is
/// the larger, so exactly one of the two parties leads.
pub proof fn lemma_one_leader(a: Seq<u8>, b: Seq<u8>)
    requires
        a.len() == b.len(),
        a != b,
    ensures
        lex_greater(a, b) != lex_greater(b, a),
{
    assert(a.take(0) =~= b.take(0));
    lemma_first_difference(a, b, 0);
    let i = choose|i: int| 0 <= i < a.len() && a.take(i) == b.take(i) && a[i] != b[i];
    if a[i] > b[i] {
        assert(lex_greater(a, b));
    } else {
        assert(b.take(i) == a.take(i) && b[i] > a[i]);
        assert(lex_greater(b, a));
    }
    if lex_greater(a, b) && lex_greater(b, a) {
        let j = choose|j: int| 0 <= j < a.len() && j < b.len() && a.take(j) == b.take(j) && a[j] > b[j];
        let k = choose|k: int| 0 <= k < b.len() && k < a.len() && b.take(k) == a.take(k) && b[k] > a[k];
        if j < k {
            assert(a.take(k)[j] == b.take(k)[j]);
        } else if k < j {
            assert(a.take(j)[k] == b.take(j)[k]);
        }
    }
}

/// Whether this party leads: its encoded public key is the larger one.
pub fn is_leader(my_pk: &[u8; 33], peer_pk: &[u8; 33]) -> (r: bool)
    ensures
        r == lex_greater(my_pk@, peer_pk@),
{
    let mut i: usize = 0;
    while i < 33
        invariant
            i <= 33,
            my_pk@.take(i as int) == peer_pk@.take(i as int),
        decreases 33 - i,
    {
        if my_pk[i] != peer_pk[i] {
            proof {
                if my_pk[i as int] < peer_pk[i as int] {
                    assert forall|j: int|
                        0 <= j < 33 && my_pk@.take(j) == peer_pk@.take(j) implies !(my_pk@[j]
                        > peer_pk@[j]) by {
                        if j > i {
                            assert(my_pk@.take(j)[i as int] == peer_pk@.take(j)[i as int]);
                        }
                        if j < i {
                            assert(my_pk@.take(i as int)[j] == peer_pk@.take(i as int)[j]);
                        }
                    }
                }
            }
            return my_pk[i] > peer_pk[i];
        }
        i = i + 1;
        assert(my_pk@.take(i as int) =~= my_pk@.take((i - 1) as int).push(my_pk@[i - 1]));
        assert(peer_pk@.take(i as int) =~= peer_pk@.take((i - 1) as int).push(peer_pk@[i - 1]));
    }
    proof {
        assert forall|j: int|
            0 <= j < 33 && my_pk@.take(j) == peer_pk@.take(j) implies !(my_pk@[j]
            > peer_pk@[j]) by {
            assert(my_pk@.take(33)[j] == peer_pk@.take(33)[j]);
        }
    }
    false
}

/// This party's public key `key * G`; there is none for a zero key.
pub fn public_key(key: &scalar) -> (r: Option<[u8; 33]>)
    requires
        is_reduced(*key),
    ensures
        r.is_some() == (val4(*key) != 0),
        r matches Some(p) ==> p@ == base_mul(scalar_to_bytes(*key)@),
{
    let kb = bytes_from_scalar(key);
    public_key_of(&kb)
}

/// The follower's view of the joint nonce point: the leader's `k_l * G`
/// times the follower's nonce.
pub fn shared_nonce_point(k_g: &[u8; 33], nonce: &scalar) -> (r: Option<[u8; 33]>)
    requires
        is_reduced(*nonce),
    ensures
        r.is_some() == (is_point(k_g@) && val4(*nonce) != 0),
        r matches Some(p) ==> p@ == point_mul(k_g@, scalar_to_bytes(*nonce)@),
{
    let nb = bytes_from_scalar(nonce);
    mul_point(k_g, &nb)
}

/// Settles the roles once the public keys are exchanged: a peer key that
/// is no point, or that equals ours, ends the run; otherwise this party
/// leads where its key is the larger one.
pub fn assign_role(my_pk: &[u8; 33], peer_pk: &[u8; 33]) -> (res: Result<bool, SignError>)
    ensures
        !is_point(peer_pk@) ==> res == Err::<bool, SignError>(SignError::MalformedPeerData),
        is_point(peer_pk@) && peer_pk@ == my_pk@ ==> res == Err::<bool, SignError>(
            SignError::IdenticalKeys,
        ),
        is_point(peer_pk@) && peer_pk@ != my_pk@ ==> res == Ok::<bool, SignError>(
            lex_greater(my_pk@, peer_pk@),
        ),
{
    if !is_valid_point(peer_pk) {
        return Err(SignError::MalformedPeerData);
    }
    if bytes_eq(peer_pk, my_pk) {
        return Err(SignError::IdenticalKeys);
    }
    Ok(is_leader(my_pk, peer_pk))
}

/// The aggregation challenge of the key `pk`: `H(H(leader || follower) || pk)`.
pub open spec fn challenge(leader_pk: Seq<u8>, follower_pk: Seq<u8>, pk: Seq<u8>) -> Seq<u8> {
    sha256_of(sha256_of(leader_pk + follower_pk) + pk)
}

/// The aggregation challenge of `pk` within the pair.
pub fn key_challenge(leader_pk: &[u8; 33], follower_pk: &[u8; 33], pk: &[u8; 33]) -> (h: [u8; 32])
    ensures
        h@ == challenge(leader_pk@, follower_pk@, pk@),
{
    let lf = concat(leader_pk, follower_pk);
    let l = sha256(&lf);
    let lp = concat(&l, pk);
    sha256(&lp)
}

/// This party's share of the joint key: its key times its own challenge,
/// read as a scalar.
pub fn tweaked_key(key: &scalar, h: &[u8; 32]) -> (t: scalar)
    requires
        is_reduced(*key),
    ensures
        val4(t) == ((be_val(*h) % group_order()) * val4(*key)) % group_order(),
        is_reduced(t),
{
    let hs = secp256k1_scalar_set_b32(h);
    secp256k1_scalar_mul(&hs, key)
}

/// The joint public key: this party's tweaked key times the generator plus
/// the peer's key times the peer's challenge.
pub fn joint_public_key(my_tweaked: &scalar, peer_pk: &[u8; 33], peer_h: &[u8; 32]) -> (r: Option<
    [u8; 33],
>)
    requires
        is_reduced(*my_tweaked),
    ensures
        r.is_some() == (val4(*my_tweaked) != 0 && is_point(peer_pk@) && 0 < be_val(*peer_h)
            < group_order() && sum_defined(
            base_mul(scalar_to_bytes(*my_tweaked)@),
            point_mul(peer_pk@, peer_h@),
        )),
        r matches Some(p) ==> p@ == point_add(
            base_mul(scalar_to_bytes(*my_tweaked)@),
            point_mul(peer_pk@, peer_h@),
        ),
{
    let tb = bytes_from_scalar(my_tweaked);
    let mine = public_key_of(&tb)?;
    let theirs = mul_point(peer_pk, peer_h)?;
    add_points(&mine, &theirs)
}

/// The x-coordinate bytes of an encoded point: all but the prefix byte.
pub fn x_coordinate(p: &[u8; 33]) -> (x: [u8; 32])
    ensures
        x@ == p@.subrange(1, 33),
{
    let mut x = [0u8; 32];
    let mut i: usize = 0;
    while i < 32
        invariant
            i <= 32,
            forall|j: int| 0 <= j < i ==> x[j] == p[j + 1],
        decreases 32 - i,
    {
        x[i] = p[i + 1];
        i = i + 1;
    }
    assert(x@ =~= p@.subrange(1, 33));
    x
}

/// The leader's own part `g0 = q_l * (m + r * x_l)`.
pub fn leader_own_part(my_tweaked: &scalar, r: &scalar, m: &scalar, inv_nonce: &scalar) -> (g0:
    scalar)
    requires
        is_reduced(*my_tweaked),
        is_reduced(*r),
        is_reduced(*m),
        is_reduced(*inv_nonce),
    ensures
        val4(g0) == (val4(*inv_nonce) * (((val4(*my_tweaked) * val4(*r)) % group_order() + val4(
            *m,
        )) % group_order())) % group_order(),
        is_reduced(g0),
{
    let mut kx_m = secp256k1_scalar_mul(my_tweaked, r);
    secp256k1_scalar_add_assign(&mut kx_m, m);
    secp256k1_scalar_mul(inv_nonce, &kx_m)
}

/// The follower's multiplicand for the first conversion: `r * x_f`.
pub fn follower_cross_term(my_tweaked: &scalar, r: &scalar) -> (kx: scalar)
    requires
        is_reduced(*my_tweaked),
        is_reduced(*r),
    ensures
        val4(kx) == (val4(*my_tweaked) * val4(*r)) % group_order(),
        is_reduced(kx),
{
    secp256k1_scalar_mul(my_tweaked, r)
}

/// The low-s form of a signature component `s`.
pub open spec fn low_s_value(s: int) -> int {
    if s > half_order() {
        group_order() - s
    } else {
        s
    }
}

/// The 64-byte compact signature: `r`, then `s` in low-s form.
pub open spec fn compact_signature(r: scalar, s: scalar) -> Seq<u8> {
    scalar_to_bytes(r)@ + scalar_to_bytes(s)@
}

/// Assembles `(r, s)` with `s` in low-s form.
pub fn assemble_signature(r: &scalar, s: &scalar) -> (res: ([u8; 64], scalar))
    requires
        is_reduced(*s),
    ensures
        val4(res.1) == if val4(*s) > half_order() { group_order() - val4(*s) } else { val4(*s) },
        val4(res.1) <= half_order(),
        res.0@ == compact_signature(*r, res.1),
{
    let low = normalize_s(s);
    let rb = bytes_from_scalar(r);
    let sb = bytes_from_scalar(&low);
    let mut x = [0u8; 64];
    let mut i: usize = 0;
    while i < 32
        invariant
            i <= 32,
            forall|j: int| 0 <= j < i ==> x[j] == rb[j] && x[j + 32] == sb[j],
        decreases 32 - i,
    {
        x[i] = rb[i];
        x[i + 32] = sb[i];
        i = i + 1;
    }
    assert(x@ =~= rb@ + sb@);
    (x, low)
}

/// Assembles the signature and checks it against the joint key; only a
/// signature that verifies comes out.
pub fn finish_signature(r: &scalar, s: &scalar, m: &scalar, joint_pk: &[u8; 33]) -> (res: Result<
    [u8; 64],
    SignError,
>)
    requires
        is_reduced(*s),
    ensures
        exists|low: scalar|
            val4(low) == low_s_value(val4(*s)) && val4(low) <= half_order() && (if ecdsa_valid(
                scalar_to_bytes(*m)@,
                compact_signature(*r, low),
                joint_pk@,
            ) {
                res matches Ok(sig) && sig@ == compact_signature(*r, low)
            } else {
                res == Err::<[u8; 64], SignError>(SignError::VerificationFailed)
            }),
{
    let (sig, low) = assemble_signature(r, s);
    let mb = bytes_from_scalar(m);
    if verify_signature(&mb, &sig, joint_pk) {
        Ok(sig)
    } else {
        Err(SignError::VerificationFailed)
    }
}

proof fn lemma_mod_add_cong(a: int, b: int, c: int, d: int)
    requires
        a % group_order() == c % group_order(),
        b % group_order() == d % group_order(),
    ensures
        (a + b) % group_order() == (c + d) % group_order(),
{
    vstd::arithmetic::div_mod::lemma_add_mod_noop(a, b, group_order());
    vstd::arithmetic::div_mod::lemma_add_mod_noop(c, d, group_order());
}

proof fn lemma_mod_mul_cong(a: int, b: int, c: int, d: int)
    requires
        a % group_order() == c % group_order(),
        b % group_order() == d % group_order(),
    ensures
        (a * b) % group_order() == (c * d) % group_order(),
{
    vstd::arithmetic::div_mod::lemma_mul_mod_noop(a, b, group_order());
    vstd::arithmetic::div_mod::lemma_mul_mod_noop(c, d, group_order());
}

proof fn lemma_mod_mod(a: int)
    ensures
        (a % group_order()) % group_order() == a % group_order(),
{
    vstd::arithmetic::div_mod::lemma_mod_twice(a, group_order());
}

proof fn lemma_share_algebra(
    xl: int,
    xf: int,
    mm: int,
    rr: int,
    ql: int,
    qf: int,
    vg0: int,
    vkx: int,
    vg1: int,
    vg2: int,
    vgamma1: int,
    vgamma1_in: int,
    vt0: int,
    vt1: int,
    vs1: int,
    vs: int,
)
    requires
        vg0 == (ql * (((xl * rr) % group_order() + mm) % group_order())) % group_order(),
        vkx == (xf * rr) % group_order(),
        (vg2 + vg1) % group_order() == (vkx * ql) % group_order(),
        vgamma1 == (vg1 + vg0) % group_order(),
        vgamma1_in == (qf * vg2) % group_order(),
        (vt0 + vt1) % group_order() == (vgamma1 * qf) % group_order(),
        vs1 == (vt1 + vgamma1_in) % group_order(),
        vs == (vs1 + vt0) % group_order(),
    ensures
        vs == (ql * qf * (mm + rr * (xl + xf))) % group_order(),
{
    let n = group_order();
    lemma_mod_mod(xl * rr);
    lemma_mod_add_cong((xl * rr) % n, mm, xl * rr, mm);
    lemma_mod_mod((xl * rr) % n + mm);
    lemma_mod_mul_cong(ql, ((xl * rr) % n + mm) % n, ql, xl * rr + mm);
    let e0 = ql * (xl * rr + mm);
    assert(vg0 == e0 % n);
    lemma_mod_mod(xf * rr);
    lemma_mod_mul_cong(vkx, ql, xf * rr, ql);
    let e12 = (xf * rr) * ql;
    assert((vg2 + vg1) % n == e12 % n);
    lemma_mod_mod(vg1 + vg0);
    lemma_mod_mul_cong(vgamma1, qf, vg1 + vg0, qf);
    assert((vt0 + vt1) % n == ((vg1 + vg0) * qf) % n);
    lemma_mod_mod(qf * vg2);
    lemma_mod_add_cong(vt1, vgamma1_in, vt1, qf * vg2);
    lemma_mod_mod(vt1 + qf * vg2);
    lemma_mod_add_cong(vs1, vt0, vt1 + qf * vg2, vt0);
    let total = (vt0 + vt1) + qf * vg2;
    assert(vs == total % n);
    lemma_mod_add_cong(vt0 + vt1, qf * vg2, (vg1 + vg0) * qf, qf * vg2);
    assert((vg1 + vg0) * qf + qf * vg2 == qf * ((vg2 + vg1) + vg0)) by (nonlinear_arith);
    lemma_mod_add_cong(vg2 + vg1, vg0, e12, e0);
    lemma_mod_mul_cong(qf, (vg2 + vg1) + vg0, qf, e12 + e0);
    assert(qf * (e12 + e0) == ql * qf * (mm + rr * (xl + xf))) by (nonlinear_arith)
        requires
            e12 == (xf * rr) * ql,
            e0 == ql * (xl * rr + mm),
    ;
}

/// The share algebra of a signing run: with the leader's part
/// `g0 = q_l * (x_l * r + m)`, a first conversion of `(r * x_f) * q_l` into
/// `g2` (follower) and `g1` (leader), a second conversion of
/// `(g1 + g0) * q_f` into `t0` (leader) and `t1` (follower), the follower's
/// `s1 = t1 + q_f * g2`, and each side adding the share it receives, both
/// sides hold `s = q_l * q_f * (m + r * (x_l + x_f))` modulo the order.
pub proof fn lemma_signature_shares(
    x_l: scalar,
    x_f: scalar,
    m: scalar,
    r: scalar,
    q_l: scalar,
    q_f: scalar,
    g0: scalar,
    kx: scalar,
    g1: scalar,
    g2: scalar,
    gamma1: scalar,
    gamma1_in: scalar,
    t0: scalar,
    t1: scalar,
    s1: scalar,
    s_leader: scalar,
    s_follower: scalar,
)
    requires
        val4(g0) == (val4(q_l) * (((val4(x_l) * val4(r)) % group_order() + val4(m))
            % group_order())) % group_order(),
        val4(kx) == (val4(x_f) * val4(r)) % group_order(),
        (val4(g2) + val4(g1)) % group_order() == (val4(kx) * val4(q_l)) % group_order(),
        val4(gamma1) == (val4(g1) + val4(g0)) % group_order(),
        val4(gamma1_in) == (val4(q_f) * val4(g2)) % group_order(),
        (val4(t0) + val4(t1)) % group_order() == (val4(gamma1) * val4(q_f)) % group_order(),
        val4(s1) == (val4(t1) + val4(gamma1_in)) % group_order(),
        val4(s_leader) == (val4(s1) + val4(t0)) % group_order(),
        val4(s_follower) == (val4(t0) + val4(s1)) % group_order(),
    ensures
        val4(s_leader) == (val4(q_l) * val4(q_f) * (val4(m) + val4(r) * (val4(x_l) + val4(x_f))))
            % group_order(),
        val4(s_follower) == val4(s_leader),
{
    lemma_share_algebra(
        val4(x_l),
        val4(x_f),
        val4(m),
        val4(r),
        val4(q_l),
        val4(q_f),
        val4(g0),
        val4(kx),
        val4(g1),
        val4(g2),
        val4(gamma1),
        val4(gamma1_in),
        val4(t0),
        val4(t1),
        val4(s1),
        val4(s_leader),
    );
}

} // verus!
