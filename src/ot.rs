//! A 1-out-of-256 oblivious transfer: the sender offers 256 plaintexts of 32
//! bytes, the receiver learns the one at its choice index, the sender learns
//! nothing of the choice. Each side is a chain of step types; the caller
//! moves the messages between the two.
use vstd::prelude::*;

use crate::curve::{base_mul, is_point, is_valid_point, point_mul, sha256, sha256_of};
use crate::scalars::{
    be_val, generate_key, group_order, is_reduced, scalar, secp256k1_scalar_set_b32, val4,
};

pub mod receiver;
pub mod sender;

verus! {

/// Why a transfer was abandoned.
#[derive(Debug, Clone, Copy, PartialEq, Eq, Structural)]
pub enum OtError {
    /// The peer sent bytes that encode no curve point.
    InvalidPoint,
    /// The peer's point is the generator itself.
    TrivialKey,
    /// No curve point among the 256 candidates derived from the peer's point.
    OracleFailed,
    /// A curve operation met the point at infinity or a zero scalar.
    DegenerateKey,
    /// The ciphertext block does not have 256 entries of 32 bytes.
    WrongLength,
}

/// The domain-separation tag hashed in front of a point by the oracle.
pub const ORACLE_TAG: [u8; 32] = [
    0x49, 0x6d, 0x70, 0x6c, 0x65, 0x6d, 0x65, 0x6e, 0x74, 0x61, 0x74, 0x69, 0x6f, 0x6e, 0x4f, 0x62,
    0x6c, 0x69, 0x76, 0x69, 0x6f, 0x75, 0x73, 0x54, 0x72, 0x61, 0x6e, 0x73, 0x66, 0x65, 0x72, 0x73,
];

/// The ciphertext block size: 256 entries of 32 bytes.
pub const BLOCK_LEN: usize = 8192;

/// The `k`-th point candidate of the oracle for the digest `d`: prefix 2,
/// the first 31 bytes of `d`, and the last byte of `d` plus `k`, wrapping.
pub open spec fn oracle_candidate(d: Seq<u8>, k: int) -> Seq<u8> {
    seq![2u8] + d.take(31) + seq![((d[31] + k) % 256) as u8]
}

/// The digest the oracle starts from.
pub open spec fn oracle_digest(s: Seq<u8>) -> Seq<u8> {
    sha256_of(ORACLE_TAG@ + s)
}

/// `t` is what the oracle gives for the point `s`: the first of its
/// candidates that is a curve point.
pub open spec fn is_oracle_point(t: Seq<u8>, s: Seq<u8>) -> bool {
    is_point(t) && exists|k: int|
        0 <= k < 256 && t == oracle_candidate(oracle_digest(s), k) && forall|j: int|
            0 <= j < k ==> !is_point(#[trigger] oracle_candidate(oracle_digest(s), j))
}

/// Byte-wise exclusive or of two strings of one length.
pub open spec fn xor_bytes(a: Seq<u8>, b: Seq<u8>) -> Seq<u8> {
    Seq::new(a.len(), |i: int| a[i] ^ b[i])
}

/// Whether two byte strings are equal.
pub fn bytes_eq(a: &[u8], b: &[u8]) -> (r: bool)
    ensures
        r == (a@ == b@),
{
    if a.len() != b.len() {
        return false;
    }
    let mut i: usize = 0;
    while i < a.len()
        invariant
            i <= a@.len() == b@.len(),
            a@.take(i as int) == b@.take(i as int),
        decreases a@.len() - i,
    {
        if a[i] != b[i] {
            assert(a@[i as int] != b@[i as int]);
            return false;
        }
        i = i + 1;
        assert(a@.take(i as int) =~= a@.take((i - 1) as int).push(a@[i - 1]));
        assert(b@.take(i as int) =~= b@.take((i - 1) as int).push(b@[i - 1]));
    }
    assert(a@ =~= a@.take(i as int));
    assert(b@ =~= b@.take(i as int));
    true
}

/// `a` followed by `b`.
pub fn concat(a: &[u8], b: &[u8]) -> (r: Vec<u8>)
    ensures
        r@ == a@ + b@,
{
    let mut r: Vec<u8> = Vec::new();
    let mut i: usize = 0;
    while i < a.len()
        invariant
            i <= a@.len(),
            r@ == a@.take(i as int),
        decreases a@.len() - i,
    {
        r.push(a[i]);
        i = i + 1;
        assert(r@ =~= a@.take(i as int));
    }
    let mut j: usize = 0;
    while j < b.len()
        invariant
            j <= b@.len(),
            r@ == a@ + b@.take(j as int),
        decreases b@.len() - j,
    {
        r.push(b[j]);
        j = j + 1;
        assert(r@ =~= a@ + b@.take(j as int));
    }
    assert(b@.take(b@.len() as int) =~= b@);
    r
}

/// Hashes a point onto the curve: SHA-256 of the tag and the point gives a
/// candidate x-coordinate with prefix 2; the last byte is bumped until a
/// point comes out, at most 256 times. The first candidate that is a point
/// is returned, and `None` where none of the 256 is.
pub fn oracle(s: &[u8; 33]) -> (r: Option<[u8; 33]>)
    ensures
        r matches Some(t) ==> is_oracle_point(t@, s@),
        r is None ==> forall|k: int|
            0 <= k < 256 ==> !is_point(#[trigger] oracle_candidate(oracle_digest(s@), k)),
{
    let tag = ORACLE_TAG;
    let data = concat(&tag, s);
    let d = sha256(&data);
    let ghost dg = d@;
    assert(dg == oracle_digest(s@));
    let mut t: [u8; 33] = [0x02u8; 33];
    let mut i: usize = 0;
    while i < 32
        invariant
            i <= 32,
            d@ == dg,
            t[0] == 2,
            forall|j: int| 0 <= j < i ==> t[j + 1] == dg[j],
        decreases 32 - i,
    {
        t[i + 1] = d[i];
        i = i + 1;
    }
    let mut k: u16 = 0;
    while k < 256
        invariant
            k <= 256,
            dg == oracle_digest(s@),
            t@ == oracle_candidate(dg, k as int),
            forall|j: int| 0 <= j < k ==> !is_point(#[trigger] oracle_candidate(dg, j)),
        decreases 256 - k,
    {
        assert(t@ =~= oracle_candidate(dg, k as int));
        if is_valid_point(&t) {
            assert(0 <= k < 256 && t@ == oracle_candidate(dg, k as int));
            return Some(t);
        }
        t[32] = if t[32] == 255 { 0 } else { t[32] + 1 };
        k = k + 1;
        assert(t@ =~= oracle_candidate(dg, k as int));
    }
    None
}

proof fn lemma_xor_twice(a: u8, k: u8)
    by (bit_vector)
    ensures
        (a ^ k) ^ k == a,
{
}

/// The byte-wise exclusive or of a plaintext and a key.
pub fn xor_cipher(m: &[u8; 32], key: &[u8; 32]) -> (x: [u8; 32])
    ensures
        x@ == xor_bytes(m@, key@),
{
    let mut x = [0u8; 32];
    let mut i: usize = 0;
    while i < 32
        invariant
            i <= 32,
            forall|j: int| 0 <= j < i ==> x[j] == m[j] ^ key[j],
        decreases 32 - i,
    {
        x[i] = m[i] ^ key[i];
        i = i + 1;
    }
    assert(x@ =~= xor_bytes(m@, key@));
    x
}

/// Deciphers a 32-byte ciphertext with its key and reads the plaintext as a
/// scalar.
pub fn xor_decipher_scalar(key: &[u8; 32], r: &[u8; 32]) -> (s: scalar)
    ensures
        exists|m: [u8; 32]| m@ == xor_bytes(r@, key@) && val4(s) == be_val(m) % group_order(),
        is_reduced(s),
{
    let m = xor_cipher(r, key);
    secp256k1_scalar_set_b32(&m)
}

/// Enciphering with a key and deciphering with the same key gives back the
/// plaintext.
pub proof fn lemma_xor_round_trip(m: Seq<u8>, key: Seq<u8>)
    requires
        m.len() == key.len(),
    ensures
        xor_bytes(xor_bytes(m, key), key) == m,
{
    assert forall|i: int| 0 <= i < m.len() implies xor_bytes(xor_bytes(m, key), key)[i] == m[i] by {
        lemma_xor_twice(m[i], key[i]);
    }
    assert(xor_bytes(xor_bytes(m, key), key) =~= m);
}

/// The oracle point of a point is unique.
pub proof fn lemma_oracle_point_unique(t1: Seq<u8>, t2: Seq<u8>, s: Seq<u8>)
    requires
        is_oracle_point(t1, s),
        is_oracle_point(t2, s),
    ensures
        t1 == t2,
{
    let d = oracle_digest(s);
    let k1 = choose|k: int|
        0 <= k < 256 && t1 == oracle_candidate(d, k) && forall|j: int|
            0 <= j < k ==> !is_point(#[trigger] oracle_candidate(d, j));
    let k2 = choose|k: int|
        0 <= k < 256 && t2 == oracle_candidate(d, k) && forall|j: int|
            0 <= j < k ==> !is_point(#[trigger] oracle_candidate(d, j));
    if k1 < k2 {
        assert(!is_point(oracle_candidate(d, k1)));
    } else if k2 < k1 {
        assert(!is_point(oracle_candidate(d, k2)));
    }
}

/// What a whole transfer of `msgs` at the choice `c` yields for a sender
/// secret `y` and a receiver secret `x`, both in `1..n`: with `S = yG`, the
/// oracle point `T` of `S` and `R = cT + xG`, entry `c` enciphered under the
/// sender's key for `c` (running point `yR` moved `c` times by `-yT`) and
/// deciphered under the receiver's key `H(S || R || xS)`.
pub open spec fn transfer_output(msgs: Seq<[u8; 32]>, c: u8, m: Seq<u8>) -> bool {
    exists|y: scalar, x: scalar, ny: scalar, t: Seq<u8>| #[trigger]
        transfer_output_with(msgs, c, m, y, x, ny, t)
}

/// [`transfer_output`] for given secrets `y`, `x`, the negation `ny` of `y`
/// and the oracle point `t`.
pub open spec fn transfer_output_with(
    msgs: Seq<[u8; 32]>,
    c: u8,
    m: Seq<u8>,
    y: scalar,
    x: scalar,
    ny: scalar,
    t: Seq<u8>,
) -> bool {
    let yb = crate::scalars::scalar_to_bytes(y)@;
    let xb = crate::scalars::scalar_to_bytes(x)@;
    let s = base_mul(yb);
    let r = receiver::blinded_choice(t, c, xb);
    &&& is_reduced(y) && 0 < val4(y)
    &&& is_reduced(x) && 0 < val4(x)
    &&& val4(ny) == (group_order() - val4(y)) % group_order()
    &&& is_oracle_point(t, s)
    &&& m == xor_bytes(
        xor_bytes(
            msgs[c as int]@,
            sender::sender_key(
                s + r,
                point_mul(r, yb),
                point_mul(t, crate::scalars::scalar_to_bytes(ny)@),
                c as nat,
            ),
        ),
        sha256_of(s + r + point_mul(s, xb)),
    )
}

/// Runs one whole transfer with both sides in this process, each with a
/// fresh random secret, and returns what the receiver deciphers.
pub fn local_transfer(msgs: &[[u8; 32]], choice: u8) -> (res: Result<[u8; 32], OtError>)
    requires
        msgs@.len() == 256,
    ensures
        res matches Ok(m) ==> transfer_output(msgs@, choice, m@),
{
    let (y, x) = match (generate_key(), generate_key()) {
        (Some(y), Some(x)) => (y, x),
        _ => return Err(OtError::DegenerateKey),
    };
    let sender = match sender::send_s::new(&y) {
        Some(st) => st,
        None => return Err(OtError::DegenerateKey),
    };
    let s = sender.message();
    let sender = sender.next();
    let receiver = receiver::get_s::new(choice, &x).next(&s)?;
    let r = receiver.message();
    let receiver = receiver.next();
    let keys = sender.next(&r)?;
    let (_, block) = keys.next(msgs)?;
    let got = receiver.next(&block)?;
    let m = got.decipher();
    proof {
        let c = choice as int;
        let yb = crate::scalars::scalar_to_bytes(y)@;
        let xb = crate::scalars::scalar_to_bytes(x)@;
        let t = choose|t: Seq<u8>|
            is_oracle_point(t, s@) && r@ == receiver::blinded_choice(t, choice, xb);
        let (t2, ny) = choose|t2: Seq<u8>, ny: scalar|
            is_oracle_point(t2, s@) && val4(ny) == (group_order() - val4(y)) % group_order()
                && keys.step() == point_mul(t2, crate::scalars::scalar_to_bytes(ny)@);
        lemma_oracle_point_unique(t, t2, s@);
        assert(block@.subrange(32 * c, 32 * c + 32) == xor_bytes(
            msgs@[c]@,
            sender::sender_key(keys.prefix(), keys.start(), keys.step(), c as nat),
        ));
        assert(m.0@ == xor_bytes(
            xor_bytes(
                msgs@[c]@,
                sender::sender_key(s@ + r@, point_mul(r@, yb), point_mul(t, crate::scalars::scalar_to_bytes(ny)@), c as nat),
            ),
            sha256_of(s@ + r@ + point_mul(s@, xb)),
        ));
        assert(transfer_output_with(msgs@, choice, m.0@, y, x, ny, t));
    }
    Ok(m.0)
}

/// Transfer correctness, where the keys agree: the receiver holds entry `c`
/// of a block the sender enciphered, and its key is the sender's key for
/// index `c`; deciphering then yields plaintext `c`. That the two keys agree
/// rests on the curve arithmetic, `x(yG) = y(cT + xG) - c(yT)`, which lies
/// with the curve library.
pub proof fn lemma_transfer_delivers(
    msgs: Seq<[u8; 32]>,
    block: Seq<u8>,
    prefix: Seq<u8>,
    start: Seq<u8>,
    step: Seq<u8>,
    c: int,
    ct: [u8; 32],
    key: [u8; 32],
)
    requires
        0 <= c < msgs.len(),
        block.len() == 32 * msgs.len(),
        forall|i: int|
            0 <= i < msgs.len() ==> #[trigger] block.subrange(32 * i, 32 * i + 32) == xor_bytes(
                msgs[i]@,
                sender::sender_key(prefix, start, step, i as nat),
            ),
        ct@ == block.subrange(32 * c, 32 * c + 32),
        key@ == sender::sender_key(prefix, start, step, c as nat),
    ensures
        xor_bytes(ct@, key@) == msgs[c]@,
{
    assert(ct@ == xor_bytes(msgs[c]@, key@));
    lemma_xor_round_trip(msgs[c]@, key@);
}

} // verus!
