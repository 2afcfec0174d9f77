//! The receiver's side of the transfer: receive `S`, send
//! `R = cT + xG` for the choice `c`, receive the 256 ciphertexts and
//! decipher the chosen one.
use vstd::prelude::*;

use crate::curve::{
    add_points, base_mul, is_point, is_valid_point, mul_point, point_add, point_mul, public_key_of,
    sha256, sha256_of, sum_defined,
};
use crate::ot::{
    bytes_eq, concat, is_oracle_point, oracle, oracle_candidate, oracle_digest, xor_bytes,
    xor_cipher, xor_decipher_scalar, OtError, BLOCK_LEN,
};
use crate::scalars::{
    be_val, bytes_from_scalar, group_order, is_reduced, scalar, scalar_to_bytes, val4,
};

verus! {

/// The scalar 1 as 32 big-endian bytes.
pub const ONE_BYTES: [u8; 32] = [
    0u8, 0, 0, 0, 0, 0, 0, 0, 0, 0, 0, 0, 0, 0, 0, 0, 0, 0, 0, 0, 0, 0, 0, 0, 0, 0, 0, 0, 0, 0, 0, 1,
];

/// The choice byte as a 32-byte big-endian scalar.
pub open spec fn choice_scalar(c: u8) -> Seq<u8> {
    Seq::new(32, |i: int| if i == 31 { c } else { 0u8 })
}

/// The point `R` a receiver with choice `c` and secret bytes `xb` sends,
/// `T` being the oracle point: `xG` for `c = 0`, else `cT + xG`.
pub open spec fn blinded_choice(t: Seq<u8>, c: u8, xb: Seq<u8>) -> Seq<u8> {
    if c == 0 {
        base_mul(xb)
    } else {
        point_add(point_mul(t, choice_scalar(c)), base_mul(xb))
    }
}

/// First step: holds the choice and the secret `x`; waits for `S`.
#[allow(non_camel_case_types)]
pub struct get_s {
    choice: u8,
    x: scalar,
}

/// Second step: holds `R` to send and the key of the chosen entry.
#[allow(non_camel_case_types)]
pub struct send_r {
    choice: u8,
    r: [u8; 33],
    key: [u8; 32],
}

/// Third step: `R` has gone out; waits for the ciphertext block.
#[allow(non_camel_case_types)]
pub struct get_es {
    choice: u8,
    key: [u8; 32],
}

/// The chosen ciphertext, with the key that deciphers it.
#[allow(non_camel_case_types)]
pub struct got_ciphertext {
    pub ciphertext: [u8; 32],
    pub key: [u8; 32],
}

/// The chosen plaintext.
#[allow(non_camel_case_types)]
pub struct got_m(pub [u8; 32]);

impl get_s {
    /// The choice index.
    pub closed spec fn choice(&self) -> u8 {
        self.choice
    }

    /// The receiver's secret.
    pub closed spec fn secret(&self) -> scalar {
        self.x
    }

    /// Starts a transfer for the choice `choice` with the secret `x`.
    pub fn new(choice: u8, x: &scalar) -> (r: get_s)
        ensures
            r.choice() == choice,
            r.secret() == *x,
    {
        get_s { choice, x: *x }
    }

    /// Takes the sender's `S`: rejects bytes that are no point and the
    /// generator itself, then derives `R` and the key `H(S || R || xS)`.
    pub fn next(self, s: &[u8; 33]) -> (res: Result<send_r, OtError>)
        requires
            is_reduced(self.secret()),
            0 < val4(self.secret()),
        ensures
            !is_point(s@) ==> res == Err::<send_r, OtError>(OtError::InvalidPoint),
            is_point(s@) && s@ == base_mul(ONE_BYTES@) ==> res == Err::<send_r, OtError>(
                OtError::TrivialKey,
            ),
            is_point(s@) && s@ != base_mul(ONE_BYTES@) && (forall|k: int|
                0 <= k < 256 ==> !is_point(#[trigger] oracle_candidate(oracle_digest(s@), k)))
                ==> res == Err::<send_r, OtError>(OtError::OracleFailed),
            is_point(s@) && s@ != base_mul(ONE_BYTES@) && (exists|k: int|
                0 <= k < 256 && is_point(#[trigger] oracle_candidate(oracle_digest(s@), k))) && (
            self.choice() == 0 || forall|t: Seq<u8>|
                is_oracle_point(t, s@) ==> sum_defined(
                    point_mul(t, choice_scalar(self.choice())),
                    base_mul(scalar_to_bytes(self.secret())@),
                )) ==> res is Ok,
            res matches Ok(st) ==> st.choice() == self.choice() && s@ != base_mul(ONE_BYTES@)
                && (exists|t: Seq<u8>|
                is_oracle_point(t, s@) && st.point()@ == blinded_choice(
                    t,
                    self.choice(),
                    scalar_to_bytes(self.secret())@,
                )) && st.key()@ == sha256_of(
                s@ + st.point()@ + point_mul(s@, scalar_to_bytes(self.secret())@),
            ),
    {
        if !is_valid_point(s) {
            return Err(OtError::InvalidPoint);
        }
        let one = ONE_BYTES;
        let g = match public_key_of(&one) {
            Some(g) => g,
            None => return Err(OtError::DegenerateKey),
        };
        if bytes_eq(s, &g) {
            return Err(OtError::TrivialKey);
        }
        assert(s@ != base_mul(ONE_BYTES@));
        let t = match oracle(s) {
            Some(t) => t,
            None => return Err(OtError::OracleFailed),
        };
        proof {
            let d = oracle_digest(s@);
            let k = choose|k: int|
                0 <= k < 256 && t@ == oracle_candidate(d, k) && forall|j: int|
                    0 <= j < k ==> !is_point(#[trigger] oracle_candidate(d, j));
            assert(is_point(oracle_candidate(d, k)));
        }
        let xb = bytes_from_scalar(&self.x);
        let xg = match public_key_of(&xb) {
            Some(p) => p,
            None => return Err(OtError::DegenerateKey),
        };
        let r = if self.choice == 0 {
            xg
        } else {
            let mut ck = [0u8; 32];
            ck[31] = self.choice;
            assert(ck@ =~= choice_scalar(self.choice));
            assert(be_val(ck) == self.choice);
            let ct = match mul_point(&t, &ck) {
                Some(p) => p,
                None => return Err(OtError::DegenerateKey),
            };
            match add_points(&ct, &xg) {
                Some(p) => p,
                None => return Err(OtError::DegenerateKey),
            }
        };
        let sx = match mul_point(s, &xb) {
            Some(p) => p,
            None => return Err(OtError::DegenerateKey),
        };
        let sr = concat(s, &r);
        let data = concat(&sr, &sx);
        let key = sha256(&data);
        Ok(send_r { choice: self.choice, r, key })
    }
}

impl send_r {
    /// The choice index.
    pub closed spec fn choice(&self) -> u8 {
        self.choice
    }

    /// The point `R`.
    pub closed spec fn point(&self) -> [u8; 33] {
        self.r
    }

    /// The key of the chosen entry.
    pub closed spec fn key(&self) -> [u8; 32] {
        self.key
    }

    /// The message to send: `R`.
    pub fn message(&self) -> (m: [u8; 33])
        ensures
            m == self.point(),
    {
        self.r
    }

    /// `R` has been sent.
    pub fn next(self) -> (r: get_es)
        ensures
            r.choice() == self.choice(),
            r.key() == self.key(),
    {
        get_es { choice: self.choice, key: self.key }
    }
}

impl get_es {
    /// The choice index.
    pub closed spec fn choice(&self) -> u8 {
        self.choice
    }

    /// The key of the chosen entry.
    pub closed spec fn key(&self) -> [u8; 32] {
        self.key
    }

    /// Takes the whole ciphertext block, all 256 entries, and keeps the
    /// chosen one. The block is always read whole, so the read pattern on the
    /// wire does not depend on the choice; only the chosen entry is then
    /// deciphered, and picking it indexes by the choice, which is not
    /// constant time.
    pub fn next(self, es: &[u8]) -> (res: Result<got_ciphertext, OtError>)
        ensures
            es@.len() != BLOCK_LEN ==> res == Err::<got_ciphertext, OtError>(OtError::WrongLength),
            es@.len() == BLOCK_LEN ==> (res matches Ok(g) && g.ciphertext@ == es@.subrange(
                32 * self.choice(),
                32 * self.choice() + 32,
            ) && g.key == self.key()),
    {
        if es.len() != BLOCK_LEN {
            return Err(OtError::WrongLength);
        }
        let base: usize = 32 * self.choice as usize;
        let mut c = [0u8; 32];
        let mut i: usize = 0;
        while i < 32
            invariant
                i <= 32,
                base == 32 * self.choice,
                es@.len() == BLOCK_LEN,
                forall|j: int| 0 <= j < i ==> c[j] == es@[base + j],
            decreases 32 - i,
        {
            c[i] = es[base + i];
            i = i + 1;
        }
        assert(c@ =~= es@.subrange(base as int, base + 32));
        Ok(got_ciphertext { ciphertext: c, key: self.key })
    }
}

impl got_ciphertext {
    /// Deciphers the chosen entry.
    pub fn decipher(&self) -> (m: got_m)
        ensures
            m.0@ == xor_bytes(self.ciphertext@, self.key@),
    {
        got_m(xor_cipher(&self.ciphertext, &self.key))
    }

    /// Deciphers the chosen entry and reads it as a scalar.
    pub fn decipher_scalar(&self) -> (s: scalar)
        ensures
            exists|m: [u8; 32]|
                m@ == xor_bytes(self.ciphertext@, self.key@) && val4(s) == be_val(m) % group_order(),
            is_reduced(s),
    {
        xor_decipher_scalar(&self.key, &self.ciphertext)
    }
}

} // verus!
