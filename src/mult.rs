//! Multiplicative-to-additive share conversion by oblivious transfer: the
//! sender holds `alpha`, the receiver `beta`; after 32 transfers, one per
//! byte of `beta`, their shares add up to `alpha * beta` modulo the order.
//!
//! Two orderings exist. The scale-free one goes from the least significant
//! byte up and doubles the sender's multiplicand eight times between rows,
//! so the receiver only adds what it gets. The legacy one goes from the most
//! significant byte down with unscaled rows, and both sides shift each
//! contribution into its byte position afterwards.
use vstd::arithmetic::power2::pow2;
use vstd::prelude::*;

use crate::ot::{local_transfer, transfer_output, OtError};
use crate::scalars::{
    assign_add, be_val, bytes_from_scalar, group_order, is_reduced, non_constant_time_shift, random_scalar,
    scalar, scalar_mul_by_256, scalar_to_bytes, secp256k1_scalar_add_assign,
    secp256k1_scalar_negate, secp256k1_scalar_set_b32, val4,
};

verus! {

/// The weight of byte position `pos`, counted from the least significant
/// byte: `256^pos`.
pub open spec fn byte_weight(pos: int) -> int {
    pow2((8 * pos) as nat) as int
}

/// The sum of the first `k` entries.
pub open spec fn sum_vals(v: Seq<scalar>, k: int) -> int
    decreases k,
{
    if k <= 0 {
        0
    } else {
        sum_vals(v, k - 1) + val4(v[k - 1])
    }
}

/// The sum of the first `k` entries, entry `i` weighted by the byte position
/// `31 - i`.
pub open spec fn sum_msb_weighted(v: Seq<scalar>, k: int) -> int
    decreases k,
{
    if k <= 0 {
        0
    } else {
        sum_msb_weighted(v, k - 1) + val4(v[k - 1]) * byte_weight(31 - (k - 1))
    }
}

/// All entries are reduced.
pub open spec fn all_reduced(v: Seq<scalar>) -> bool {
    forall|i: int| 0 <= i < v.len() ==> is_reduced(#[trigger] v[i])
}

proof fn lemma_mod_sum_step(acc: int, x: int)
    requires
        0 <= x < group_order(),
    ensures
        ((acc % group_order()) + x) % group_order() == (acc + x) % group_order(),
{
    vstd::arithmetic::div_mod::lemma_add_mod_noop(acc, x, group_order());
    vstd::arithmetic::div_mod::lemma_small_mod(x as nat, group_order() as nat);
    vstd::arithmetic::div_mod::lemma_mod_twice(acc, group_order());
}

proof fn lemma_mod_mul_add(j: int, x: int, phi: int)
    requires
        0 <= j,
        0 <= phi < group_order(),
    ensures
        ((j * (x % group_order())) % group_order() + phi) % group_order() == (j * x + phi)
            % group_order(),
{
    let n = group_order();
    vstd::arithmetic::div_mod::lemma_mul_mod_noop_right(j, x, n);
    lemma_mod_sum_step(j * x, phi);
}

/// Adds up the given scalars modulo the order.
fn sum_mod(v: &[scalar; 32]) -> (s: scalar)
    requires
        all_reduced(v@),
    ensures
        val4(s) == sum_vals(v@, 32) % group_order(),
        is_reduced(s),
{
    let mut s: scalar = [0u64; 4];
    let mut k: usize = 0;
    proof {
        vstd::arithmetic::div_mod::lemma_small_mod(0, group_order() as nat);
    }
    while k < 32
        invariant
            k <= 32,
            all_reduced(v@),
            is_reduced(s),
            val4(s) == sum_vals(v@, k as int) % group_order(),
        decreases 32 - k,
    {
        proof {
            assert(is_reduced(v@[k as int]));
            lemma_mod_sum_step(sum_vals(v@, k as int), val4(v[k as int]));
        }
        secp256k1_scalar_add_assign(&mut s, &v[k]);
        k = k + 1;
    }
    s
}

/// The choices of the scale-free receiver: the bytes of `beta` from the least
/// significant one up.
pub fn lsb_first_choices(beta: &scalar) -> (c: [u8; 32])
    ensures
        forall|k: int| 0 <= k < 32 ==> c[k] == #[trigger] scalar_to_bytes(*beta)[31 - k],
{
    let b = bytes_from_scalar(beta);
    let mut c = [0u8; 32];
    let mut k: usize = 0;
    while k < 32
        invariant
            k <= 32,
            b == scalar_to_bytes(*beta),
            forall|j: int| 0 <= j < k ==> c[j] == b[31 - j],
        decreases 32 - k,
    {
        c[k] = b[31 - k];
        k = k + 1;
    }
    c
}

/// The choices of the legacy receiver: the bytes of `beta` from the most
/// significant one down.
pub fn msb_first_choices(beta: &scalar) -> (c: [u8; 32])
    ensures
        c == scalar_to_bytes(*beta),
{
    bytes_from_scalar(beta)
}

/// The sender's share in the scale-free ordering: minus the sum of the masks.
pub fn scale_free_sender_share(neg_phis: &[scalar; 32]) -> (s: scalar)
    requires
        all_reduced(neg_phis@),
    ensures
        val4(s) == (group_order() - sum_vals(neg_phis@, 32) % group_order()) % group_order(),
        is_reduced(s),
{
    let mut s = sum_mod(neg_phis);
    secp256k1_scalar_negate(&mut s);
    s
}

/// The 32 tables of the scale-free sender: row `k`, entry `j` is
/// `j * alpha * 256^k` plus the mask of row `k`.
pub fn scale_free_rows(alpha: &scalar, neg_phis: &[scalar; 32]) -> (rows: Vec<[scalar; 256]>)
    requires
        is_reduced(*alpha),
        all_reduced(neg_phis@),
    ensures
        rows@.len() == 32,
        forall|k: int, j: int|
            0 <= k < 32 && 0 <= j < 256 ==> #[trigger] val4(rows@[k][j]) == (j * val4(*alpha)
                * byte_weight(k) + val4(neg_phis@[k])) % group_order(),
        forall|k: int, j: int| 0 <= k < 32 && 0 <= j < 256 ==> is_reduced(#[trigger] rows@[k][j]),
{
    let mut rows: Vec<[scalar; 256]> = Vec::new();
    let mut alpha_doubles = *alpha;
    let mut k: usize = 0;
    proof {
        vstd::arithmetic::power2::lemma2_to64();
        vstd::arithmetic::div_mod::lemma_small_mod(val4(*alpha) as nat, group_order() as nat);
        assert(byte_weight(0) == 1);
        assert(val4(*alpha) * byte_weight(0) == val4(*alpha));
    }
    while k < 32
        invariant
            k <= 32,
            is_reduced(*alpha),
            all_reduced(neg_phis@),
            is_reduced(alpha_doubles),
            val4(alpha_doubles) == (val4(*alpha) * byte_weight(if k == 0 { 0 } else { k - 1 }))
                % group_order(),
            rows@.len() == k,
            forall|q: int, j: int|
                0 <= q < k && 0 <= j < 256 ==> #[trigger] val4(rows@[q][j]) == (j * val4(*alpha)
                    * byte_weight(q) + val4(neg_phis@[q])) % group_order(),
            forall|q: int, j: int|
                0 <= q < k && 0 <= j < 256 ==> is_reduced(#[trigger] rows@[q][j]),
        decreases 32 - k,
    {
        if k > 0 {
            non_constant_time_shift(&mut alpha_doubles, 1);
            proof {
                let n = group_order();
                let a = val4(*alpha);
                vstd::arithmetic::power2::lemma_pow2_adds((8 * (k - 1)) as nat, 8);
                vstd::arithmetic::div_mod::lemma_mul_mod_noop_left(a * byte_weight(k - 1), pow2(8) as int, n);
                assert(a * byte_weight(k - 1) * pow2(8) == a * byte_weight(k as int)) by (nonlinear_arith)
                    requires
                        byte_weight(k as int) == byte_weight(k - 1) * pow2(8),
                ;
            }
        }
        let mut row = scalar_mul_by_256(&alpha_doubles);
        assign_add(&mut row, &neg_phis[k]);
        proof {
            let a = val4(*alpha);
            let x = a * byte_weight(k as int);
            let phi = val4(neg_phis@[k as int]);
            assert(is_reduced(neg_phis@[k as int]));
            assert forall|j: int| 0 <= j < 256 implies #[trigger] val4(row[j]) == (j * a
                * byte_weight(k as int) + phi) % group_order() by {
                lemma_mod_mul_add(j, x, phi);
                assert(j * x == j * a * byte_weight(k as int)) by (nonlinear_arith)
                    requires
                        x == a * byte_weight(k as int),
                ;
            }
        }
        rows.push(row);
        k = k + 1;
    }
    rows
}

/// The scale-free receiver's share: the sum of what the 32 transfers gave.
pub fn scale_free_receiver_share(received: &[scalar; 32]) -> (s: scalar)
    requires
        all_reduced(received@),
    ensures
        val4(s) == sum_vals(received@, 32) % group_order(),
        is_reduced(s),
{
    sum_mod(received)
}

/// Adds up the given scalars, entry `k` shifted into byte position `31 - k`,
/// modulo the order.
fn sum_msb_weighted_mod(v: &[scalar; 32]) -> (s: scalar)
    requires
        all_reduced(v@),
    ensures
        val4(s) == sum_msb_weighted(v@, 32) % group_order(),
        is_reduced(s),
{
    let mut s: scalar = [0u64; 4];
    let mut k: usize = 0;
    proof {
        vstd::arithmetic::div_mod::lemma_small_mod(0, group_order() as nat);
    }
    while k < 32
        invariant
            k <= 32,
            all_reduced(v@),
            is_reduced(s),
            val4(s) == sum_msb_weighted(v@, k as int) % group_order(),
        decreases 32 - k,
    {
        let mut t = v[k];
        proof {
            assert(is_reduced(v@[k as int]));
        }
        non_constant_time_shift(&mut t, (31 - k) as u8);
        proof {
            let n = group_order();
            let acc = sum_msb_weighted(v@, k as int);
            let x = val4(v@[k as int]) * byte_weight(31 - k);
            vstd::arithmetic::div_mod::lemma_add_mod_noop(acc, x, n);
            vstd::arithmetic::div_mod::lemma_mod_twice(acc, n);
            vstd::arithmetic::div_mod::lemma_mod_twice(x, n);
            vstd::arithmetic::div_mod::lemma_add_mod_noop(acc % n, x % n, n);
        }
        secp256k1_scalar_add_assign(&mut s, &t);
        k = k + 1;
    }
    s
}

/// The sender's share in the legacy ordering: minus the sum of the masks,
/// mask `k` shifted into byte position `31 - k`.
pub fn legacy_sender_share(neg_phis: &[scalar; 32]) -> (s: scalar)
    requires
        all_reduced(neg_phis@),
    ensures
        val4(s) == (group_order() - sum_msb_weighted(neg_phis@, 32) % group_order())
            % group_order(),
        is_reduced(s),
{
    let mut s = sum_msb_weighted_mod(neg_phis);
    secp256k1_scalar_negate(&mut s);
    s
}

/// The 32 tables of the legacy sender: row `k`, entry `j` is `j * alpha`
/// plus the mask of row `k`.
pub fn legacy_rows(alpha: &scalar, neg_phis: &[scalar; 32]) -> (rows: Vec<[scalar; 256]>)
    requires
        is_reduced(*alpha),
        all_reduced(neg_phis@),
    ensures
        rows@.len() == 32,
        forall|k: int, j: int|
            0 <= k < 32 && 0 <= j < 256 ==> #[trigger] val4(rows@[k][j]) == (j * val4(*alpha)
                + val4(neg_phis@[k])) % group_order(),
        forall|k: int, j: int| 0 <= k < 32 && 0 <= j < 256 ==> is_reduced(#[trigger] rows@[k][j]),
{
    let alphas = scalar_mul_by_256(alpha);
    let mut rows: Vec<[scalar; 256]> = Vec::new();
    let mut k: usize = 0;
    while k < 32
        invariant
            k <= 32,
            is_reduced(*alpha),
            all_reduced(neg_phis@),
            forall|j: int| 0 <= j < 256 ==> #[trigger] val4(alphas[j]) == (j * val4(*alpha)) % group_order(),
            forall|j: int| 0 <= j < 256 ==> is_reduced(#[trigger] alphas[j]),
            rows@.len() == k,
            forall|q: int, j: int|
                0 <= q < k && 0 <= j < 256 ==> #[trigger] val4(rows@[q][j]) == (j * val4(*alpha)
                    + val4(neg_phis@[q])) % group_order(),
            forall|q: int, j: int|
                0 <= q < k && 0 <= j < 256 ==> is_reduced(#[trigger] rows@[q][j]),
        decreases 32 - k,
    {
        let mut row = alphas;
        assign_add(&mut row, &neg_phis[k]);
        proof {
            let phi = val4(neg_phis@[k as int]);
            assert(is_reduced(neg_phis@[k as int]));
            assert forall|j: int| 0 <= j < 256 implies #[trigger] val4(row[j]) == (j * val4(*alpha)
                + phi) % group_order() by {
                lemma_mod_sum_step(j * val4(*alpha), phi);
            }
        }
        rows.push(row);
        k = k + 1;
    }
    rows
}

/// The legacy receiver's share: what transfer `k` gave, shifted into byte
/// position `31 - k`, summed.
pub fn legacy_receiver_share(received: &[scalar; 32]) -> (s: scalar)
    requires
        all_reduced(received@),
    ensures
        val4(s) == sum_msb_weighted(received@, 32) % group_order(),
        is_reduced(s),
{
    sum_msb_weighted_mod(received)
}

/// The 32-byte encodings of the entries of a table.
fn row_bytes(row: &[scalar; 256]) -> (b: Vec<[u8; 32]>)
    ensures
        b@.len() == 256,
        forall|j: int| 0 <= j < 256 ==> b@[j] == scalar_to_bytes(#[trigger] row[j]),
{
    let mut b: Vec<[u8; 32]> = Vec::new();
    let mut j: usize = 0;
    while j < 256
        invariant
            j <= 256,
            b@.len() == j,
            forall|q: int| 0 <= q < j ==> b@[q] == scalar_to_bytes(#[trigger] row[q]),
        decreases 256 - j,
    {
        b.push(bytes_from_scalar(&row[j]));
        j = j + 1;
    }
    b
}

/// 32 fresh random masks.
fn random_masks() -> (m: [scalar; 32])
    ensures
        all_reduced(m@),
{
    let mut m: [scalar; 32] = [[0u64; 4]; 32];
    let mut k: usize = 0;
    while k < 32
        invariant
            k <= 32,
            forall|q: int| 0 <= q < 32 ==> is_reduced(#[trigger] m[q]),
        decreases 32 - k,
    {
        m[k] = random_scalar();
        k = k + 1;
    }
    assert(all_reduced(m@));
    m
}

/// The 32-byte encodings of a table's entries.
pub open spec fn row_msgs(row: [scalar; 256]) -> Seq<[u8; 32]> {
    Seq::new(256, |j: int| scalar_to_bytes(row[j]))
}

/// `v` is what a transfer of the table `row` at the choice `c` yielded,
/// read as a scalar.
pub open spec fn delivered(row: [scalar; 256], c: u8, v: scalar) -> bool {
    exists|m: [u8; 32]|
        #[trigger] transfer_output(row_msgs(row), c, m@) && val4(v) == be_val(m) % group_order()
}

/// Entry `k` of `received` is what the transfer of row `k` at choice `k`
/// yielded.
pub open spec fn all_delivered(rows: Seq<[scalar; 256]>, choices: Seq<u8>, received: Seq<scalar>) -> bool {
    forall|k: int| 0 <= k < 32 ==> delivered(rows[k], choices[k], #[trigger] received[k])
}

/// The bytes of `beta` from the least significant one up.
pub open spec fn lsb_bytes(beta: scalar) -> Seq<u8> {
    Seq::new(32, |k: int| scalar_to_bytes(beta)[31 - k])
}

/// A scale-free run with the masks `neg_phis`, tables `rows` and transfer
/// results `received` gave the shares `sa` and `sb`.
pub open spec fn scale_free_run(
    alpha: scalar,
    beta: scalar,
    sa: scalar,
    sb: scalar,
    neg_phis: Seq<scalar>,
    rows: Seq<[scalar; 256]>,
    received: Seq<scalar>,
) -> bool {
    &&& neg_phis.len() == 32 && all_reduced(neg_phis)
    &&& rows.len() == 32 && forall|k: int, j: int|
        0 <= k < 32 && 0 <= j < 256 ==> #[trigger] val4(rows[k][j]) == (j * val4(alpha)
            * byte_weight(k) + val4(neg_phis[k])) % group_order()
    &&& received.len() == 32 && all_reduced(received)
    &&& all_delivered(rows, lsb_bytes(beta), received)
    &&& val4(sa) == (group_order() - sum_vals(neg_phis, 32) % group_order()) % group_order()
    &&& val4(sb) == sum_vals(received, 32) % group_order()
}

/// A legacy run with the masks `neg_phis`, tables `rows` and transfer
/// results `received` gave the shares `sa` and `sb`.
pub open spec fn legacy_run(
    alpha: scalar,
    beta: scalar,
    sa: scalar,
    sb: scalar,
    neg_phis: Seq<scalar>,
    rows: Seq<[scalar; 256]>,
    received: Seq<scalar>,
) -> bool {
    &&& neg_phis.len() == 32 && all_reduced(neg_phis)
    &&& rows.len() == 32 && forall|k: int, j: int|
        0 <= k < 32 && 0 <= j < 256 ==> #[trigger] val4(rows[k][j]) == (j * val4(alpha) + val4(
            neg_phis[k],
        )) % group_order()
    &&& received.len() == 32 && all_reduced(received)
    &&& all_delivered(rows, scalar_to_bytes(beta)@, received)
    &&& val4(sa) == (group_order() - sum_msb_weighted(neg_phis, 32) % group_order())
        % group_order()
    &&& val4(sb) == sum_msb_weighted(received, 32) % group_order()
}

/// Runs the 32 transfers of one conversion in this process; entry `k` of
/// the result is what the transfer of row `k` at `choices[k]` gave.
fn local_transfers(rows: &Vec<[scalar; 256]>, choices: &[u8; 32]) -> (res: Result<[scalar; 32], OtError>)
    requires
        rows@.len() == 32,
    ensures
        res matches Ok(received) ==> all_reduced(received@) && all_delivered(
            rows@,
            choices@,
            received@,
        ),
{
    let mut received: [scalar; 32] = [[0u64; 4]; 32];
    let mut k: usize = 0;
    while k < 32
        invariant
            k <= 32,
            rows@.len() == 32,
            forall|q: int| 0 <= q < 32 ==> is_reduced(#[trigger] received[q]),
            forall|q: int| 0 <= q < k ==> delivered(rows@[q], choices[q], #[trigger] received[q]),
        decreases 32 - k,
    {
        let msgs = row_bytes(&rows[k]);
        assert(msgs@ =~= row_msgs(rows@[k as int]));
        let m = local_transfer(&msgs, choices[k])?;
        received[k] = secp256k1_scalar_set_b32(&m);
        assert(delivered(rows@[k as int], choices[k as int], received[k as int]));
        k = k + 1;
    }
    assert(all_reduced(received@));
    Ok(received)
}

/// Runs one conversion in the legacy ordering with both parties in this
/// process, as a benchmark of it does, and returns the sender's and the
/// receiver's share.
pub fn bench_scaled_mult(alpha: &scalar, beta: &scalar) -> (res: Result<(scalar, scalar), OtError>)
    requires
        is_reduced(*alpha),
    ensures
        res matches Ok((sa, sb)) ==> is_reduced(sa) && is_reduced(sb) && exists|
            neg_phis: Seq<scalar>,
            rows: Seq<[scalar; 256]>,
            received: Seq<scalar>,
        | #[trigger] legacy_run(*alpha, *beta, sa, sb, neg_phis, rows, received),
{
    let neg_phis = random_masks();
    let rows = legacy_rows(alpha, &neg_phis);
    let choices = msb_first_choices(beta);
    let received = local_transfers(&rows, &choices)?;
    let sa = legacy_sender_share(&neg_phis);
    let sb = legacy_receiver_share(&received);
    assert(legacy_run(*alpha, *beta, sa, sb, neg_phis@, rows@, received@));
    Ok((sa, sb))
}

/// Runs one conversion in the scale-free ordering with both parties in this
/// process, as a benchmark of it does, and returns the sender's and the
/// receiver's share.
pub fn bench_scale_free_mult(alpha: &scalar, beta: &scalar) -> (res: Result<(scalar, scalar), OtError>)
    requires
        is_reduced(*alpha),
    ensures
        res matches Ok((sa, sb)) ==> is_reduced(sa) && is_reduced(sb) && exists|
            neg_phis: Seq<scalar>,
            rows: Seq<[scalar; 256]>,
            received: Seq<scalar>,
        | #[trigger] scale_free_run(*alpha, *beta, sa, sb, neg_phis, rows, received),
{
    let neg_phis = random_masks();
    let rows = scale_free_rows(alpha, &neg_phis);
    let choices = lsb_first_choices(beta);
    assert(choices@ =~= lsb_bytes(*beta));
    let received = local_transfers(&rows, &choices)?;
    let sa = scale_free_sender_share(&neg_phis);
    let sb = scale_free_receiver_share(&received);
    assert(scale_free_run(*alpha, *beta, sa, sb, neg_phis@, rows@, received@));
    Ok((sa, sb))
}


/// `256^k`, step by step.
pub open spec fn pow256(k: nat) -> int
    decreases k,
{
    if k == 0 {
        1
    } else {
        256 * pow256((k - 1) as nat)
    }
}

proof fn lemma_byte_weight_pow256(k: nat)
    ensures
        byte_weight(k as int) == pow256(k),
    decreases k,
{
    if k == 0 {
        vstd::arithmetic::power2::lemma2_to64();
    } else {
        lemma_byte_weight_pow256((k - 1) as nat);
        vstd::arithmetic::power2::lemma_pow2_adds((8 * (k - 1)) as nat, 8);
        vstd::arithmetic::power2::lemma2_to64();
        assert((8 * (k - 1)) as nat + 8 == (8 * k) as nat);
    }
}

/// The bytes `c[0], ..., c[k - 1]` read with `c[i]` weighing `256^i`.
pub open spec fn lsb_value(c: Seq<u8>, k: nat) -> int
    decreases k,
{
    if k == 0 {
        0
    } else {
        lsb_value(c, (k - 1) as nat) + c[k - 1] * pow256((k - 1) as nat)
    }
}

/// The bytes of a scalar, least significant first, weighted by `256^i`, add
/// up to the scalar.
proof fn lemma_lsb_bytes_value(beta: scalar, c: Seq<u8>)
    requires
        c.len() == 32,
        forall|i: int| 0 <= i < 32 ==> c[i] == #[trigger] scalar_to_bytes(beta)[31 - i],
    ensures
        lsb_value(c, 32) == val4(beta),
{
    let b = scalar_to_bytes(beta);
    assert forall|i: int| 0 <= i < 32 implies c[i] == b[31 - i] by {
        assert(c[i] == scalar_to_bytes(beta)[31 - i]);
    }
    assert(pow256(0) == 1);
    assert(lsb_value(c, 0) == 0);
    assert(pow256(1) == 0x100);
    assert(pow256(2) == 0x10000);
    assert(pow256(3) == 0x1000000);
    assert(pow256(4) == 0x100000000);
    assert(pow256(5) == 0x10000000000);
    assert(pow256(6) == 0x1000000000000);
    assert(pow256(7) == 0x100000000000000);
    assert(pow256(8) == 0x10000000000000000);
    assert(pow256(9) == 0x1000000000000000000);
    assert(pow256(10) == 0x100000000000000000000);
    assert(pow256(11) == 0x10000000000000000000000);
    assert(pow256(12) == 0x1000000000000000000000000);
    assert(pow256(13) == 0x100000000000000000000000000);
    assert(pow256(14) == 0x10000000000000000000000000000);
    assert(pow256(15) == 0x1000000000000000000000000000000);
    assert(pow256(16) == 0x100000000000000000000000000000000);
    assert(pow256(17) == 0x10000000000000000000000000000000000);
    assert(pow256(18) == 0x1000000000000000000000000000000000000);
    assert(pow256(19) == 0x100000000000000000000000000000000000000);
    assert(pow256(20) == 0x10000000000000000000000000000000000000000);
    assert(pow256(21) == 0x1000000000000000000000000000000000000000000);
    assert(pow256(22) == 0x100000000000000000000000000000000000000000000);
    assert(pow256(23) == 0x10000000000000000000000000000000000000000000000);
    assert(pow256(24) == 0x1000000000000000000000000000000000000000000000000);
    assert(pow256(25) == 0x100000000000000000000000000000000000000000000000000);
    assert(pow256(26) == 0x10000000000000000000000000000000000000000000000000000);
    assert(pow256(27) == 0x1000000000000000000000000000000000000000000000000000000);
    assert(pow256(28) == 0x100000000000000000000000000000000000000000000000000000000);
    assert(pow256(29) == 0x10000000000000000000000000000000000000000000000000000000000);
    assert(pow256(30) == 0x1000000000000000000000000000000000000000000000000000000000000);
    assert(pow256(31) == 0x100000000000000000000000000000000000000000000000000000000000000);
    assert(lsb_value(c, 1) == lsb_value(c, 0) + c[0] * 0x1);
    assert(lsb_value(c, 2) == lsb_value(c, 1) + c[1] * 0x100);
    assert(lsb_value(c, 3) == lsb_value(c, 2) + c[2] * 0x10000);
    assert(lsb_value(c, 4) == lsb_value(c, 3) + c[3] * 0x1000000);
    assert(lsb_value(c, 5) == lsb_value(c, 4) + c[4] * 0x100000000);
    assert(lsb_value(c, 6) == lsb_value(c, 5) + c[5] * 0x10000000000);
    assert(lsb_value(c, 7) == lsb_value(c, 6) + c[6] * 0x1000000000000);
    assert(lsb_value(c, 8) == lsb_value(c, 7) + c[7] * 0x100000000000000);
    assert(lsb_value(c, 9) == lsb_value(c, 8) + c[8] * 0x10000000000000000);
    assert(lsb_value(c, 10) == lsb_value(c, 9) + c[9] * 0x1000000000000000000);
    assert(lsb_value(c, 11) == lsb_value(c, 10) + c[10] * 0x100000000000000000000);
    assert(lsb_value(c, 12) == lsb_value(c, 11) + c[11] * 0x10000000000000000000000);
    assert(lsb_value(c, 13) == lsb_value(c, 12) + c[12] * 0x1000000000000000000000000);
    assert(lsb_value(c, 14) == lsb_value(c, 13) + c[13] * 0x100000000000000000000000000);
    assert(lsb_value(c, 15) == lsb_value(c, 14) + c[14] * 0x10000000000000000000000000000);
    assert(lsb_value(c, 16) == lsb_value(c, 15) + c[15] * 0x1000000000000000000000000000000);
    assert(lsb_value(c, 17) == lsb_value(c, 16) + c[16] * 0x100000000000000000000000000000000);
    assert(lsb_value(c, 18) == lsb_value(c, 17) + c[17] * 0x10000000000000000000000000000000000);
    assert(lsb_value(c, 19) == lsb_value(c, 18) + c[18] * 0x1000000000000000000000000000000000000);
    assert(lsb_value(c, 20) == lsb_value(c, 19) + c[19] * 0x100000000000000000000000000000000000000);
    assert(lsb_value(c, 21) == lsb_value(c, 20) + c[20] * 0x10000000000000000000000000000000000000000);
    assert(lsb_value(c, 22) == lsb_value(c, 21) + c[21] * 0x1000000000000000000000000000000000000000000);
    assert(lsb_value(c, 23) == lsb_value(c, 22) + c[22] * 0x100000000000000000000000000000000000000000000);
    assert(lsb_value(c, 24) == lsb_value(c, 23) + c[23] * 0x10000000000000000000000000000000000000000000000);
    assert(lsb_value(c, 25) == lsb_value(c, 24) + c[24] * 0x1000000000000000000000000000000000000000000000000);
    assert(lsb_value(c, 26) == lsb_value(c, 25) + c[25] * 0x100000000000000000000000000000000000000000000000000);
    assert(lsb_value(c, 27) == lsb_value(c, 26) + c[26] * 0x10000000000000000000000000000000000000000000000000000);
    assert(lsb_value(c, 28) == lsb_value(c, 27) + c[27] * 0x1000000000000000000000000000000000000000000000000000000);
    assert(lsb_value(c, 29) == lsb_value(c, 28) + c[28] * 0x100000000000000000000000000000000000000000000000000000000);
    assert(lsb_value(c, 30) == lsb_value(c, 29) + c[29] * 0x10000000000000000000000000000000000000000000000000000000000);
    assert(lsb_value(c, 31) == lsb_value(c, 30) + c[30] * 0x1000000000000000000000000000000000000000000000000000000000000);
    assert(lsb_value(c, 32) == lsb_value(c, 31) + c[31] * 0x100000000000000000000000000000000000000000000000000000000000000);
    assert(lsb_value(c, 32) == crate::scalars::be_val(b));
    crate::scalars::lemma_scalar_bytes_value(beta);
}

/// The sum of the first `k` entries picked from the scale-free rows at the
/// choices `c`: `c[i] * a * 256^i` plus mask `i`.
pub open spec fn picked_sum(a: int, c: Seq<u8>, phis: Seq<scalar>, k: int) -> int
    decreases k,
{
    if k <= 0 {
        0
    } else {
        picked_sum(a, c, phis, k - 1) + (c[k - 1] * a * byte_weight(k - 1) + val4(phis[k - 1]))
    }
}

proof fn lemma_picked_sum(a: int, c: Seq<u8>, phis: Seq<scalar>, k: nat)
    ensures
        picked_sum(a, c, phis, k as int) == a * lsb_value(c, k) + sum_vals(phis, k as int),
    decreases k,
{
    if k > 0 {
        lemma_picked_sum(a, c, phis, (k - 1) as nat);
        lemma_byte_weight_pow256((k - 1) as nat);
        let l = lsb_value(c, (k - 1) as nat);
        let w = pow256((k - 1) as nat);
        let ck = c[k - 1] as int;
        assert(a * (l + ck * w) == a * l + ck * a * w) by (nonlinear_arith);
    }
}

proof fn lemma_received_sum(received: Seq<scalar>, a: int, c: Seq<u8>, phis: Seq<scalar>, k: nat)
    requires
        k <= received.len(),
        forall|i: int|
            0 <= i < k ==> #[trigger] val4(received[i]) == (c[i] * a * byte_weight(i) + val4(
                phis[i],
            )) % group_order(),
    ensures
        sum_vals(received, k as int) % group_order() == picked_sum(a, c, phis, k as int)
            % group_order(),
    decreases k,
{
    let n = group_order();
    if k > 0 {
        let j = (k - 1) as int;
        lemma_received_sum(received, a, c, phis, (k - 1) as nat);
        let sp = sum_vals(received, j);
        let pp = picked_sum(a, c, phis, j);
        let t = c[j] * a * byte_weight(j) + val4(phis[j]);
        assert(val4(received[j]) == t % n);
        vstd::arithmetic::div_mod::lemma_add_mod_noop(sp, t % n, n);
        vstd::arithmetic::div_mod::lemma_mod_twice(t, n);
        vstd::arithmetic::div_mod::lemma_add_mod_noop(pp, t, n);
    }
}

/// Multiplication-share correctness, scale-free ordering: where transfer `k`
/// delivered entry `choices[k]` of row `k` and the choices are the bytes of
/// `beta` from the least significant one up, the sender's and the
/// receiver's shares add up to `alpha * beta` modulo the order.
pub proof fn lemma_scale_free_shares(
    alpha: scalar,
    beta: scalar,
    neg_phis: Seq<scalar>,
    choices: Seq<u8>,
    received: Seq<scalar>,
    sa: scalar,
    sb: scalar,
)
    requires
        is_reduced(alpha),
        is_reduced(beta),
        neg_phis.len() == 32,
        all_reduced(neg_phis),
        choices.len() == 32,
        received.len() == 32,
        forall|k: int| 0 <= k < 32 ==> choices[k] == #[trigger] scalar_to_bytes(beta)[31 - k],
        forall|k: int|
            0 <= k < 32 ==> #[trigger] val4(received[k]) == (choices[k] * val4(alpha)
                * byte_weight(k) + val4(neg_phis[k])) % group_order(),
        val4(sa) == (group_order() - sum_vals(neg_phis, 32) % group_order()) % group_order(),
        val4(sb) == sum_vals(received, 32) % group_order(),
    ensures
        (val4(sa) + val4(sb)) % group_order() == (val4(alpha) * val4(beta)) % group_order(),
{
    let n = group_order();
    let a = val4(alpha);
    lemma_received_sum(received, a, choices, neg_phis, 32);
    lemma_picked_sum(a, choices, neg_phis, 32);
    lemma_lsb_bytes_value(beta, choices);
    let pv = sum_vals(neg_phis, 32);
    let sv = sum_vals(received, 32);
    let prod = a * val4(beta);
    assert(sv % n == (prod + pv) % n);
    let p = pv % n;
    vstd::arithmetic::div_mod::lemma_add_mod_noop(n - p, sv, n);
    vstd::arithmetic::div_mod::lemma_add_mod_noop(n - p, prod + pv, n);
    vstd::arithmetic::div_mod::lemma_fundamental_div_mod(pv, n);
    let q = pv / n;
    assert(n - p + (prod + pv) == n * (q + 1) + prod) by (nonlinear_arith)
        requires
            pv == n * q + p,
    ;
    vstd::arithmetic::div_mod::lemma_mod_multiples_vanish(q + 1, prod, n);
}

/// The bytes `c[0], ..., c[k - 1]` read with `c[i]` weighing `256^(31 - i)`.
pub open spec fn msb_value(c: Seq<u8>, k: int) -> int
    decreases k,
{
    if k <= 0 {
        0
    } else {
        msb_value(c, k - 1) + c[k - 1] * pow256((31 - (k - 1)) as nat)
    }
}

/// The bytes of a scalar, most significant first, weighted by
/// `256^(31 - i)`, add up to the scalar.
proof fn lemma_msb_bytes_value(beta: scalar, c: Seq<u8>)
    requires
        c.len() == 32,
        forall|i: int| 0 <= i < 32 ==> c[i] == #[trigger] scalar_to_bytes(beta)[i],
    ensures
        msb_value(c, 32) == val4(beta),
{
    let b = scalar_to_bytes(beta);
    assert forall|i: int| 0 <= i < 32 implies c[i] == b[i] by {
        assert(c[i] == scalar_to_bytes(beta)[i]);
    }
    assert(pow256(0) == 1);
    assert(pow256(1) == 0x100);
    assert(pow256(2) == 0x10000);
    assert(pow256(3) == 0x1000000);
    assert(pow256(4) == 0x100000000);
    assert(pow256(5) == 0x10000000000);
    assert(pow256(6) == 0x1000000000000);
    assert(pow256(7) == 0x100000000000000);
    assert(pow256(8) == 0x10000000000000000);
    assert(pow256(9) == 0x1000000000000000000);
    assert(pow256(10) == 0x100000000000000000000);
    assert(pow256(11) == 0x10000000000000000000000);
    assert(pow256(12) == 0x1000000000000000000000000);
    assert(pow256(13) == 0x100000000000000000000000000);
    assert(pow256(14) == 0x10000000000000000000000000000);
    assert(pow256(15) == 0x1000000000000000000000000000000);
    assert(pow256(16) == 0x100000000000000000000000000000000);
    assert(pow256(17) == 0x10000000000000000000000000000000000);
    assert(pow256(18) == 0x1000000000000000000000000000000000000);
    assert(pow256(19) == 0x100000000000000000000000000000000000000);
    assert(pow256(20) == 0x10000000000000000000000000000000000000000);
    assert(pow256(21) == 0x1000000000000000000000000000000000000000000);
    assert(pow256(22) == 0x100000000000000000000000000000000000000000000);
    assert(pow256(23) == 0x10000000000000000000000000000000000000000000000);
    assert(pow256(24) == 0x1000000000000000000000000000000000000000000000000);
    assert(pow256(25) == 0x100000000000000000000000000000000000000000000000000);
    assert(pow256(26) == 0x10000000000000000000000000000000000000000000000000000);
    assert(pow256(27) == 0x1000000000000000000000000000000000000000000000000000000);
    assert(pow256(28) == 0x100000000000000000000000000000000000000000000000000000000);
    assert(pow256(29) == 0x10000000000000000000000000000000000000000000000000000000000);
    assert(pow256(30) == 0x1000000000000000000000000000000000000000000000000000000000000);
    assert(pow256(31) == 0x100000000000000000000000000000000000000000000000000000000000000);
    assert(msb_value(c, 0) == 0);
    assert(msb_value(c, 1) == msb_value(c, 0) + c[0] * 0x100000000000000000000000000000000000000000000000000000000000000);
    assert(msb_value(c, 2) == msb_value(c, 1) + c[1] * 0x1000000000000000000000000000000000000000000000000000000000000);
    assert(msb_value(c, 3) == msb_value(c, 2) + c[2] * 0x10000000000000000000000000000000000000000000000000000000000);
    assert(msb_value(c, 4) == msb_value(c, 3) + c[3] * 0x100000000000000000000000000000000000000000000000000000000);
    assert(msb_value(c, 5) == msb_value(c, 4) + c[4] * 0x1000000000000000000000000000000000000000000000000000000);
    assert(msb_value(c, 6) == msb_value(c, 5) + c[5] * 0x10000000000000000000000000000000000000000000000000000);
    assert(msb_value(c, 7) == msb_value(c, 6) + c[6] * 0x100000000000000000000000000000000000000000000000000);
    assert(msb_value(c, 8) == msb_value(c, 7) + c[7] * 0x1000000000000000000000000000000000000000000000000);
    assert(msb_value(c, 9) == msb_value(c, 8) + c[8] * 0x10000000000000000000000000000000000000000000000);
    assert(msb_value(c, 10) == msb_value(c, 9) + c[9] * 0x100000000000000000000000000000000000000000000);
    assert(msb_value(c, 11) == msb_value(c, 10) + c[10] * 0x1000000000000000000000000000000000000000000);
    assert(msb_value(c, 12) == msb_value(c, 11) + c[11] * 0x10000000000000000000000000000000000000000);
    assert(msb_value(c, 13) == msb_value(c, 12) + c[12] * 0x100000000000000000000000000000000000000);
    assert(msb_value(c, 14) == msb_value(c, 13) + c[13] * 0x1000000000000000000000000000000000000);
    assert(msb_value(c, 15) == msb_value(c, 14) + c[14] * 0x10000000000000000000000000000000000);
    assert(msb_value(c, 16) == msb_value(c, 15) + c[15] * 0x100000000000000000000000000000000);
    assert(msb_value(c, 17) == msb_value(c, 16) + c[16] * 0x1000000000000000000000000000000);
    assert(msb_value(c, 18) == msb_value(c, 17) + c[17] * 0x10000000000000000000000000000);
    assert(msb_value(c, 19) == msb_value(c, 18) + c[18] * 0x100000000000000000000000000);
    assert(msb_value(c, 20) == msb_value(c, 19) + c[19] * 0x1000000000000000000000000);
    assert(msb_value(c, 21) == msb_value(c, 20) + c[20] * 0x10000000000000000000000);
    assert(msb_value(c, 22) == msb_value(c, 21) + c[21] * 0x100000000000000000000);
    assert(msb_value(c, 23) == msb_value(c, 22) + c[22] * 0x1000000000000000000);
    assert(msb_value(c, 24) == msb_value(c, 23) + c[23] * 0x10000000000000000);
    assert(msb_value(c, 25) == msb_value(c, 24) + c[24] * 0x100000000000000);
    assert(msb_value(c, 26) == msb_value(c, 25) + c[25] * 0x1000000000000);
    assert(msb_value(c, 27) == msb_value(c, 26) + c[26] * 0x10000000000);
    assert(msb_value(c, 28) == msb_value(c, 27) + c[27] * 0x100000000);
    assert(msb_value(c, 29) == msb_value(c, 28) + c[28] * 0x1000000);
    assert(msb_value(c, 30) == msb_value(c, 29) + c[29] * 0x10000);
    assert(msb_value(c, 31) == msb_value(c, 30) + c[30] * 0x100);
    assert(msb_value(c, 32) == msb_value(c, 31) + c[31] * 0x1);
    assert(msb_value(c, 32) == crate::scalars::be_val(b));
    crate::scalars::lemma_scalar_bytes_value(beta);
}

/// The sum of the first `k` entries picked from the legacy rows at the
/// choices `c`, entry `i` shifted into byte position `31 - i`.
pub open spec fn picked_msb_sum(a: int, c: Seq<u8>, phis: Seq<scalar>, k: int) -> int
    decreases k,
{
    if k <= 0 {
        0
    } else {
        picked_msb_sum(a, c, phis, k - 1) + (c[k - 1] * a + val4(phis[k - 1])) * byte_weight(
            31 - (k - 1),
        )
    }
}

proof fn lemma_picked_msb_sum(a: int, c: Seq<u8>, phis: Seq<scalar>, k: nat)
    requires
        k <= 32,
    ensures
        picked_msb_sum(a, c, phis, k as int) == a * msb_value(c, k as int) + sum_msb_weighted(
            phis,
            k as int,
        ),
    decreases k,
{
    if k > 0 {
        let j = k - 1;
        lemma_picked_msb_sum(a, c, phis, j as nat);
        lemma_byte_weight_pow256((31 - j) as nat);
        let l = msb_value(c, j as int);
        let w = pow256((31 - j) as nat);
        let cj = c[j as int] as int;
        let ph = val4(phis[j as int]);
        assert(a * (l + cj * w) + (ph * w) == a * l + (cj * a + ph) * w) by (nonlinear_arith);
    }
}

proof fn lemma_received_msb_sum(received: Seq<scalar>, a: int, c: Seq<u8>, phis: Seq<scalar>, k: nat)
    requires
        k <= received.len(),
        k <= 32,
        forall|i: int|
            0 <= i < k ==> #[trigger] val4(received[i]) == (c[i] * a + val4(phis[i]))
                % group_order(),
    ensures
        sum_msb_weighted(received, k as int) % group_order() == picked_msb_sum(a, c, phis, k as int)
            % group_order(),
    decreases k,
{
    let n = group_order();
    if k > 0 {
        let j = (k - 1) as int;
        lemma_received_msb_sum(received, a, c, phis, (k - 1) as nat);
        let sp = sum_msb_weighted(received, j);
        let pp = picked_msb_sum(a, c, phis, j);
        let t = c[j] * a + val4(phis[j]);
        let w = byte_weight(31 - j);
        assert(val4(received[j]) == t % n);
        vstd::arithmetic::div_mod::lemma_mul_mod_noop_left(t, w, n);
        vstd::arithmetic::div_mod::lemma_add_mod_noop(sp, (t % n) * w, n);
        vstd::arithmetic::div_mod::lemma_add_mod_noop(pp, t * w, n);
    }
}

/// Multiplication-share correctness, legacy ordering: where transfer `k`
/// delivered entry `choices[k]` of row `k` and the choices are the bytes of
/// `beta` from the most significant one down, the sender's and the
/// receiver's shares add up to `alpha * beta` modulo the order.
pub proof fn lemma_legacy_shares(
    alpha: scalar,
    beta: scalar,
    neg_phis: Seq<scalar>,
    choices: Seq<u8>,
    received: Seq<scalar>,
    sa: scalar,
    sb: scalar,
)
    requires
        is_reduced(alpha),
        is_reduced(beta),
        neg_phis.len() == 32,
        all_reduced(neg_phis),
        choices.len() == 32,
        received.len() == 32,
        forall|k: int| 0 <= k < 32 ==> choices[k] == #[trigger] scalar_to_bytes(beta)[k],
        forall|k: int|
            0 <= k < 32 ==> #[trigger] val4(received[k]) == (choices[k] * val4(alpha) + val4(
                neg_phis[k],
            )) % group_order(),
        val4(sa) == (group_order() - sum_msb_weighted(neg_phis, 32) % group_order())
            % group_order(),
        val4(sb) == sum_msb_weighted(received, 32) % group_order(),
    ensures
        (val4(sa) + val4(sb)) % group_order() == (val4(alpha) * val4(beta)) % group_order(),
{
    let n = group_order();
    let a = val4(alpha);
    lemma_received_msb_sum(received, a, choices, neg_phis, 32);
    lemma_picked_msb_sum(a, choices, neg_phis, 32);
    lemma_msb_bytes_value(beta, choices);
    let pv = sum_msb_weighted(neg_phis, 32);
    let sv = sum_msb_weighted(received, 32);
    let prod = a * val4(beta);
    assert(sv % n == (prod + pv) % n);
    let p = pv % n;
    vstd::arithmetic::div_mod::lemma_add_mod_noop(n - p, sv, n);
    vstd::arithmetic::div_mod::lemma_add_mod_noop(n - p, prod + pv, n);
    vstd::arithmetic::div_mod::lemma_fundamental_div_mod(pv, n);
    let q = pv / n;
    assert(n - p + (prod + pv) == n * (q + 1) + prod) by (nonlinear_arith)
        requires
            pv == n * q + p,
    ;
    vstd::arithmetic::div_mod::lemma_mod_multiples_vanish(q + 1, prod, n);
}

} // verus!
