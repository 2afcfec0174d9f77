//! The sender's side of the transfer: send `S = yG`, receive `R`, send the
//! 256 ciphertexts.
use vstd::prelude::*;

use crate::curve::{add_points, base_mul, point_add, point_mul, public_key_of, sha256, sha256_of};
use crate::curve::{is_point, sum_defined};
use crate::ot::{
    concat, is_oracle_point, oracle, oracle_candidate, oracle_digest, xor_bytes, xor_cipher, OtError,
};
use crate::scalars::{
    bytes_from_scalar, is_reduced, scalar, scalar_to_bytes, secp256k1_scalar_negate, val4,
    group_order,
};

verus! {

/// The running point of the sender after `i` keys: `yR` plus `i` times
/// `-yT`.
pub open spec fn sender_point(start: Seq<u8>, step: Seq<u8>, i: nat) -> Seq<u8>
    decreases i,
{
    if i == 0 {
        start
    } else {
        point_add(sender_point(start, step, (i - 1) as nat), step)
    }
}

/// The key for entry `i`: the digest of `S || R` and the running point.
pub open spec fn sender_key(prefix: Seq<u8>, start: Seq<u8>, step: Seq<u8>, i: nat) -> Seq<u8> {
    sha256_of(prefix + sender_point(start, step, i))
}

/// First step: holds the secret `y` and the point `S = yG` to send.
#[allow(non_camel_case_types)]
pub struct send_s {
    y: scalar,
    s: [u8; 33],
}

/// Second step: `S` has gone out; waits for the receiver's `R`.
#[allow(non_camel_case_types)]
pub struct get_r {
    y: scalar,
    s: [u8; 33],
}

/// Third step: holds what derives the 256 keys.
#[allow(non_camel_case_types)]
pub struct send_es {
    prefix: Vec<u8>,
    start: [u8; 33],
    step: [u8; 33],
}

/// The transfer is over.
#[allow(non_camel_case_types)]
pub struct sent_es;

impl send_s {
    /// The sender's secret.
    pub closed spec fn secret(&self) -> scalar {
        self.y
    }

    /// The point `S`.
    pub closed spec fn point(&self) -> [u8; 33] {
        self.s
    }

    /// Starts a transfer with the secret `y`; there is none for `y = 0`.
    pub fn new(y: &scalar) -> (r: Option<send_s>)
        requires
            is_reduced(*y),
        ensures
            r.is_some() == (val4(*y) != 0),
            r matches Some(st) ==> st.secret() == *y && val4(*y) != 0 && st.point()@ == base_mul(
                scalar_to_bytes(*y)@,
            ),
    {
        let yb = bytes_from_scalar(y);
        match public_key_of(&yb) {
            Some(s) => Some(send_s { y: *y, s }),
            None => None,
        }
    }

    /// The message to send: `S`.
    pub fn message(&self) -> (m: [u8; 33])
        ensures
            m == self.point(),
    {
        self.s
    }

    /// `S` has been sent.
    pub fn next(self) -> (r: get_r)
        ensures
            r.secret() == self.secret(),
            r.point() == self.point(),
    {
        get_r { y: self.y, s: self.s }
    }
}

impl get_r {
    /// The sender's secret.
    pub closed spec fn secret(&self) -> scalar {
        self.y
    }

    /// The point `S`.
    pub closed spec fn point(&self) -> [u8; 33] {
        self.s
    }

    /// Takes the receiver's `R` and prepares the keys: the running point
    /// starts at `yR` and moves by `-yT`, `T` the oracle point of `S`.
    pub fn next(self, r: &[u8; 33]) -> (res: Result<send_es, OtError>)
        requires
            is_reduced(self.secret()),
            val4(self.secret()) != 0,
        ensures
            !is_point(r@) ==> res == Err::<send_es, OtError>(OtError::InvalidPoint),
            is_point(r@) && (forall|k: int|
                0 <= k < 256 ==> !is_point(
                    #[trigger] oracle_candidate(oracle_digest(self.point()@), k),
                )) ==> res == Err::<send_es, OtError>(OtError::OracleFailed),
            is_point(r@) && (exists|k: int|
                0 <= k < 256 && is_point(
                    #[trigger] oracle_candidate(oracle_digest(self.point()@), k),
                )) ==> res is Ok,
            res matches Ok(st) ==> st.prefix() == self.point()@ + r@ && st.start() == point_mul(
                r@,
                scalar_to_bytes(self.secret())@,
            ) && exists|t: Seq<u8>, ny: scalar|
                is_oracle_point(t, self.point()@) && val4(ny) == (group_order() - val4(
                    self.secret(),
                )) % group_order() && st.step() == point_mul(t, scalar_to_bytes(ny)@),
    {
        if !crate::curve::is_valid_point(r) {
            return Err(OtError::InvalidPoint);
        }
        let t = match oracle(&self.s) {
            Some(t) => t,
            None => return Err(OtError::OracleFailed),
        };
        proof {
            let d = oracle_digest(self.s@);
            let k = choose|k: int|
                0 <= k < 256 && t@ == oracle_candidate(d, k) && forall|j: int|
                    0 <= j < k ==> !is_point(#[trigger] oracle_candidate(d, j));
            assert(is_point(oracle_candidate(d, k)));
            assert(self.point() == self.s);
            assert(!(forall|j: int|
                0 <= j < 256 ==> !is_point(
                    #[trigger] oracle_candidate(oracle_digest(self.point()@), j),
                )));
        }
        derive_keys(&self.y, &self.s, r, &t)
    }
}

/// The key material from `y`, `S`, `R` and the oracle point `T`.
fn derive_keys(y: &scalar, s: &[u8; 33], r: &[u8; 33], t: &[u8; 33]) -> (res: Result<send_es, OtError>)
    requires
        is_reduced(*y),
        val4(*y) != 0,
        is_point(r@),
        is_point(t@),
    ensures
        res is Ok,
        res matches Ok(st) ==> st.prefix() == s@ + r@ && st.start() == point_mul(
            r@,
            scalar_to_bytes(*y)@,
        ) && exists|ny: scalar|
            val4(ny) == (group_order() - val4(*y)) % group_order() && st.step() == point_mul(
                t@,
                scalar_to_bytes(ny)@,
            ),
{
    let mut ny = *y;
    secp256k1_scalar_negate(&mut ny);
    let nyb = bytes_from_scalar(&ny);
    let step = match crate::curve::mul_point(t, &nyb) {
        Some(p) => p,
        None => return Err(OtError::DegenerateKey),
    };
    let yb = bytes_from_scalar(y);
    let start = match crate::curve::mul_point(r, &yb) {
        Some(p) => p,
        None => return Err(OtError::InvalidPoint),
    };
    let prefix = concat(s, r);
    Ok(send_es { prefix, start, step })
}

impl send_es {
    /// `S || R`, hashed in front of every key.
    pub closed spec fn prefix(&self) -> Seq<u8> {
        self.prefix@
    }

    /// The running point for the key of entry 0.
    pub closed spec fn start(&self) -> Seq<u8> {
        self.start@
    }

    /// What the running point moves by from one entry to the next.
    pub closed spec fn step(&self) -> Seq<u8> {
        self.step@
    }

    /// Enciphers each plaintext under its key, in index order, into one block.
    pub fn next(self, msgs: &[[u8; 32]]) -> (res: Result<(sent_es, Vec<u8>), OtError>)
        requires
            msgs@.len() <= 256,
        ensures
            res is Ok <==> forall|i: int|
                1 <= i < msgs@.len() ==> sum_defined(
                    #[trigger] sender_point(self.start(), self.step(), (i - 1) as nat),
                    self.step(),
                ),
            res matches Ok((_, ct)) ==> ct@.len() == 32 * msgs@.len() && forall|i: int|
                0 <= i < msgs@.len() ==> #[trigger] ct@.subrange(32 * i, 32 * i + 32)
                    == xor_bytes(
                    msgs@[i]@,
                    sender_key(self.prefix(), self.start(), self.step(), i as nat),
                ),
    {
        let mut ct: Vec<u8> = Vec::new();
        let mut acc = self.start;
        let mut i: usize = 0;
        while i < msgs.len()
            invariant
                i <= msgs@.len() <= 256,
                forall|j: int|
                    1 <= j < i ==> sum_defined(
                        #[trigger] sender_point(self.start@, self.step@, (j - 1) as nat),
                        self.step@,
                    ),
                acc@ == sender_point(self.start@, self.step@, if i == 0 { 0 } else { (i - 1) as nat }),
                ct@.len() == 32 * i,
                forall|j: int|
                    0 <= j < i ==> #[trigger] ct@.subrange(32 * j, 32 * j + 32) == xor_bytes(
                        msgs@[j]@,
                        sender_key(self.prefix@, self.start@, self.step@, j as nat),
                    ),
            decreases msgs@.len() - i,
        {
            if i > 0 {
                acc = match add_points(&acc, &self.step) {
                    Some(p) => p,
                    None => {
                        assert(self.start() == self.start@ && self.step() == self.step@);
                        assert(!sum_defined(
                            sender_point(self.start(), self.step(), (i - 1) as nat),
                            self.step(),
                        ));
                        assert(1 <= i < msgs@.len());
                        return Err(OtError::DegenerateKey);
                    },
                };
            }
            assert(acc@ == sender_point(self.start@, self.step@, i as nat));
            let ghost before = ct@;
            let data = concat(&self.prefix, &acc);
            let key = sha256(&data);
            let c = xor_cipher(&msgs[i], &key);
            let mut k: usize = 0;
            while k < 32
                invariant
                    k <= 32,
                    ct@.len() == 32 * i + k,
                    ct@.subrange(0, 32 * i as int) == before,
                    forall|q: int| 0 <= q < k ==> ct@[32 * i + q] == c[q],
                decreases 32 - k,
            {
                ct.push(c[k]);
                k = k + 1;
            }
            proof {
                assert(ct@.subrange(32 * i as int, 32 * i + 32) =~= c@);
                assert forall|j: int| 0 <= j < i implies #[trigger] ct@.subrange(32 * j, 32 * j + 32)
                    == before.subrange(32 * j, 32 * j + 32) by {
                    assert(ct@.subrange(32 * j, 32 * j + 32) =~= before.subrange(32 * j, 32 * j + 32));
                }
            }
            i = i + 1;
        }
        Ok((sent_es, ct))
    }
}

} // verus!
