//! Arithmetic modulo the order of the secp256k1 group on four 64-bit limbs,
//! least significant limb first.
use vstd::arithmetic::power::pow;
use vstd::arithmetic::power2::pow2;
use vstd::prelude::*;

use crate::curve::random_bytes;

verus! {

/// A scalar: four 64-bit limbs, limb 0 the least significant.
#[allow(non_camel_case_types)]
pub type scalar = [u64; 4];

/// 2^64, the weight of one limb.
#[verifier::inline]
pub open spec fn w1() -> int {
    0x1_0000_0000_0000_0000int
}

/// 2^128.
#[verifier::inline]
pub open spec fn w2() -> int {
    0x1_0000_0000_0000_0000_0000_0000_0000_0000int
}

/// 2^192.
#[verifier::inline]
pub open spec fn w3() -> int {
    0x1_0000_0000_0000_0000_0000_0000_0000_0000_0000_0000_0000_0000int
}

/// 2^256.
#[verifier::inline]
pub open spec fn w4() -> int {
    0x1_0000_0000_0000_0000_0000_0000_0000_0000_0000_0000_0000_0000_0000_0000_0000_0000int
}

/// 2^320.
#[verifier::inline]
pub open spec fn w5() -> int {
    0x100000000000000000000000000000000000000000000000000000000000000000000000000000000int
}

/// 2^384.
#[verifier::inline]
pub open spec fn w6() -> int {
    0x1000000000000000000000000000000000000000000000000000000000000000000000000000000000000000000000000int
}

/// 2^448.
#[verifier::inline]
pub open spec fn w7() -> int {
    0x10000000000000000000000000000000000000000000000000000000000000000000000000000000000000000000000000000000000000000int
}

/// The order n of the secp256k1 group.
#[verifier::inline]
pub open spec fn group_order() -> int {
    0xFFFF_FFFF_FFFF_FFFF_FFFF_FFFF_FFFF_FFFE_BAAE_DCE6_AF48_A03B_BFD2_5E8C_D036_4141int
}

/// The integer that four limbs stand for.
pub open spec fn val4(a: scalar) -> int {
    a[0] + a[1] * w1() + a[2] * w2() + a[3] * w3()
}

/// A scalar in canonical form: fully reduced modulo the group order.
pub open spec fn is_reduced(a: scalar) -> bool {
    val4(a) < group_order()
}

/* Limbs of the group order. */
pub const SECP256K1_N_0: u64 = 0xBFD25E8CD0364141u64;
pub const SECP256K1_N_1: u64 = 0xBAAEDCE6AF48A03Bu64;
pub const SECP256K1_N_2: u64 = 0xFFFFFFFFFFFFFFFEu64;
pub const SECP256K1_N_3: u64 = 0xFFFFFFFFFFFFFFFFu64;

/* Limbs of 2^256 minus the group order. */
pub const SECP256K1_N_C_0: u64 = 0x402DA1732FC9BEBFu64;
pub const SECP256K1_N_C_1: u64 = 0x4551231950B75FC4u64;
pub const SECP256K1_N_C_2: u64 = 1u64;

/// Whether `a`, read as an integer, is at least the group order. The limbs are
/// compared from the most significant one with `yes`/`no` flags and no early exit.
pub fn secp256k1_scalar_check_overflow(a: &scalar) -> (r: bool)
    ensures
        r == (val4(*a) >= group_order()),
{
    let mut yes = false;
    let mut no = false;
    no = no || (a[3] < SECP256K1_N_3);
    no = no || (a[2] < SECP256K1_N_2);
    yes = yes || ((a[2] > SECP256K1_N_2) && !no);
    no = no || (a[1] < SECP256K1_N_1);
    yes = yes || ((a[1] > SECP256K1_N_1) && !no);
    yes = yes || ((a[0] >= SECP256K1_N_0) && !no);
    yes
}


/// `x + 2^256 - n`, less 2^256 where the sum reaches 2^256: what adding the
/// complement of the order does to four limbs.
pub open spec fn fold_order(x: int) -> int {
    if x + (w4() - group_order()) >= w4() {
        x + (w4() - group_order()) - w4()
    } else {
        x + (w4() - group_order())
    }
}

/// One limb of an addition: `a + b + c` as a low limb and a carry.
fn add_with_carry(a: u64, b: u64, c: u64) -> (r: (u64, u64))
    requires
        c <= 1,
    ensures
        r.0 + r.1 * w1() == a + b + c,
        r.1 <= 1,
{
    let t: u128 = a as u128 + b as u128 + c as u128;
    ((t % 0x1_0000_0000_0000_0000u128) as u64, (t / 0x1_0000_0000_0000_0000u128) as u64)
}

/// One limb of a subtraction: `a - b - c` as a low limb and a borrow.
fn sub_with_borrow(a: u64, b: u64, c: u64) -> (r: (u64, u64))
    requires
        c <= 1,
    ensures
        r.0 - r.1 * w1() == a - b - c,
        r.1 <= 1,
{
    if (a as u128) >= (b as u128) + (c as u128) {
        (a - b - c, 0)
    } else {
        let t: u128 = (a as u128 + 0x1_0000_0000_0000_0000u128) - b as u128 - c as u128;
        (t as u64, 1)
    }
}

/// Subtracts the group order from `r` when `overflow` is set, by adding
/// `2^256 - n` and dropping the carry out of the top limb.
pub fn secp256k1_scalar_reduce(r: &mut scalar, overflow: bool)
    ensures
        val4(*final(r)) == if overflow { fold_order(val4(*old(r))) } else { val4(*old(r)) },
{
    let m: u64 = if overflow { 1 } else { 0 };
    let (t0, c0) = add_with_carry(r[0], SECP256K1_N_C_0 * m, 0);
    let (t1, c1) = add_with_carry(r[1], SECP256K1_N_C_1 * m, c0);
    let (t2, c2) = add_with_carry(r[2], SECP256K1_N_C_2 * m, c1);
    let (t3, c3) = add_with_carry(r[3], 0, c2);
    r[0] = t0;
    r[1] = t1;
    r[2] = t2;
    r[3] = t3;
    proof {
        let x = val4(*old(r));
        assert(val4(*r) + c3 * w4() == x + m * (w4() - group_order()));
    }
}

/// Limb-wise sum of two scalars with the carry out of the top limb.
fn add_limbs(a: &scalar, b: &scalar) -> (res: (scalar, u64))
    ensures
        val4(res.0) + res.1 * w4() == val4(*a) + val4(*b),
        res.1 <= 1,
{
    let (t0, c0) = add_with_carry(a[0], b[0], 0);
    let (t1, c1) = add_with_carry(a[1], b[1], c0);
    let (t2, c2) = add_with_carry(a[2], b[2], c1);
    let (t3, c3) = add_with_carry(a[3], b[3], c2);
    ([t0, t1, t2, t3], c3)
}

/// Reduces a limb-wise sum of two reduced scalars; returns whether the order
/// was subtracted.
fn reduce_sum(r: &mut scalar, carry: u64, Ghost(s): Ghost<int>) -> (overflow: bool)
    requires
        carry <= 1,
        val4(*old(r)) + carry * w4() == s,
        0 <= s < 2 * group_order(),
    ensures
        val4(*final(r)) == s % group_order(),
        is_reduced(*final(r)),
        overflow == (s >= group_order()),
{
    let overflow = (carry == 1) || secp256k1_scalar_check_overflow(r);
    secp256k1_scalar_reduce(r, overflow);
    proof {
        if s >= group_order() {
            assert(s % group_order() == s - group_order()) by {
                vstd::arithmetic::div_mod::lemma_fundamental_div_mod_converse(
                    s, group_order(), 1, s - group_order());
            }
        } else {
            vstd::arithmetic::div_mod::lemma_small_mod(s as nat, group_order() as nat);
        }
    }
    overflow
}

/// `r := a + b mod n`; returns whether the sum reached the order.
pub fn secp256k1_scalar_add(r: &mut scalar, a: &scalar, b: &scalar) -> (overflow: bool)
    requires
        is_reduced(*a),
        is_reduced(*b),
    ensures
        val4(*final(r)) == (val4(*a) + val4(*b)) % group_order(),
        is_reduced(*final(r)),
        overflow == (val4(*a) + val4(*b) >= group_order()),
{
    let (t, carry) = add_limbs(a, b);
    *r = t;
    reduce_sum(r, carry, Ghost(val4(*a) + val4(*b)))
}

/// `r := r + a mod n`; returns whether the sum reached the order.
pub fn secp256k1_scalar_add_assign(r: &mut scalar, a: &scalar) -> (overflow: bool)
    requires
        is_reduced(*old(r)),
        is_reduced(*a),
    ensures
        val4(*final(r)) == (val4(*old(r)) + val4(*a)) % group_order(),
        is_reduced(*final(r)),
        overflow == (val4(*old(r)) + val4(*a) >= group_order()),
{
    let (t, carry) = add_limbs(a, r);
    let ghost s = val4(*r) + val4(*a);
    *r = t;
    reduce_sum(r, carry, Ghost(s))
}

/// `a := 2a mod n`; returns whether the double reached the order.
pub fn secp256k1_scalar_double(a: &mut scalar) -> (overflow: bool)
    requires
        is_reduced(*old(a)),
    ensures
        val4(*final(a)) == (2 * val4(*old(a))) % group_order(),
        is_reduced(*final(a)),
        overflow == (2 * val4(*old(a)) >= group_order()),
{
    let (t, carry) = add_limbs(a, a);
    let ghost s = 2 * val4(*a);
    *a = t;
    reduce_sum(a, carry, Ghost(s))
}

/// `r := -r mod n`: `n - r`, and zero for zero.
pub fn secp256k1_scalar_negate(r: &mut scalar)
    requires
        is_reduced(*old(r)),
    ensures
        val4(*final(r)) == (group_order() - val4(*old(r))) % group_order(),
        is_reduced(*final(r)),
{
    let nonzero: u64 = if r[0] != 0 || r[1] != 0 || r[2] != 0 || r[3] != 0 {
        0xFFFF_FFFF_FFFF_FFFFu64
    } else {
        0
    };
    let (t0, c0) = sub_with_borrow(SECP256K1_N_0, r[0], 0);
    let (t1, c1) = sub_with_borrow(SECP256K1_N_1, r[1], c0);
    let (t2, c2) = sub_with_borrow(SECP256K1_N_2, r[2], c1);
    let (t3, c3) = sub_with_borrow(SECP256K1_N_3, r[3], c2);
    let ghost x = val4(*r);
    proof {
        assert(val4([t0, t1, t2, t3]) - c3 * w4() == group_order() - x);
        assert(c3 == 0);
        assert(t0 & 0xFFFF_FFFF_FFFF_FFFFu64 == t0) by (bit_vector);
        assert(t1 & 0xFFFF_FFFF_FFFF_FFFFu64 == t1) by (bit_vector);
        assert(t2 & 0xFFFF_FFFF_FFFF_FFFFu64 == t2) by (bit_vector);
        assert(t3 & 0xFFFF_FFFF_FFFF_FFFFu64 == t3) by (bit_vector);
        assert(t0 & 0u64 == 0u64) by (bit_vector);
        assert(t1 & 0u64 == 0u64) by (bit_vector);
        assert(t2 & 0u64 == 0u64) by (bit_vector);
        assert(t3 & 0u64 == 0u64) by (bit_vector);
    }
    r[0] = t0 & nonzero;
    r[1] = t1 & nonzero;
    r[2] = t2 & nonzero;
    r[3] = t3 & nonzero;
    proof {
        if x == 0 {
            vstd::arithmetic::div_mod::lemma_mod_self_0(group_order());
        } else {
            vstd::arithmetic::div_mod::lemma_small_mod((group_order() - x) as nat, group_order() as nat);
        }
    }
}


/// The eight bytes of `b` from offset `o` read as a big-endian 64-bit word.
pub open spec fn be_word(b: [u8; 32], o: int) -> int {
    b[o] * 0x100_0000_0000_0000int + b[o + 1] * 0x1_0000_0000_0000int
        + b[o + 2] * 0x100_0000_0000int + b[o + 3] * 0x1_0000_0000int
        + b[o + 4] * 0x100_0000int + b[o + 5] * 0x1_0000int + b[o + 6] * 0x100int + b[o + 7]
}

/// The integer that 32 bytes stand for, most significant byte first.
pub open spec fn be_val(b: [u8; 32]) -> int {
    be_word(b, 0) * w3() + be_word(b, 8) * w2() + be_word(b, 16) * w1() + be_word(b, 24)
}

proof fn lemma_word_bytes(x: u64)
    by (bit_vector)
    ensures
        x == ((x >> 56u64) as u8) * 0x100_0000_0000_0000int + ((x >> 48u64) as u8)
            * 0x1_0000_0000_0000int + ((x >> 40u64) as u8) * 0x100_0000_0000int + ((x
            >> 32u64) as u8) * 0x1_0000_0000int + ((x >> 24u64) as u8) * 0x100_0000int + ((x
            >> 16u64) as u8) * 0x1_0000int + ((x >> 8u64) as u8) * 0x100int + (x as u8),
{
}

proof fn lemma_bytes_word(b0: u8, b1: u8, b2: u8, b3: u8, b4: u8, b5: u8, b6: u8, b7: u8)
    by (bit_vector)
    ensures
        (b7 as u64 | (b6 as u64) << 8u64 | (b5 as u64) << 16u64 | (b4 as u64) << 24u64
            | (b3 as u64) << 32u64 | (b2 as u64) << 40u64 | (b1 as u64) << 48u64 | (b0 as u64)
            << 56u64) == b0 * 0x100_0000_0000_0000int + b1 * 0x1_0000_0000_0000int + b2
            * 0x100_0000_0000int + b3 * 0x1_0000_0000int + b4 * 0x100_0000int + b5 * 0x1_0000int
            + b6 * 0x100int + b7,
{
}

/// The 32-byte big-endian encoding of four limbs.
pub open spec fn scalar_to_bytes(r: scalar) -> [u8; 32] {
    [(r[3] >> 56) as u8, (r[3] >> 48) as u8, (r[3] >> 40) as u8, (r[3] >> 32) as u8, (r[3] >> 24) as u8, (r[3] >> 16) as u8, (r[3] >> 8) as u8, r[3] as u8, (r[2] >> 56) as u8, (r[2] >> 48) as u8, (r[2] >> 40) as u8, (r[2] >> 32) as u8, (r[2] >> 24) as u8, (r[2] >> 16) as u8, (r[2] >> 8) as u8, r[2] as u8, (r[1] >> 56) as u8, (r[1] >> 48) as u8, (r[1] >> 40) as u8, (r[1] >> 32) as u8, (r[1] >> 24) as u8, (r[1] >> 16) as u8, (r[1] >> 8) as u8, r[1] as u8, (r[0] >> 56) as u8, (r[0] >> 48) as u8, (r[0] >> 40) as u8, (r[0] >> 32) as u8, (r[0] >> 24) as u8, (r[0] >> 16) as u8, (r[0] >> 8) as u8, r[0] as u8]
}

/// The 32-byte big-endian encoding of a scalar.
pub fn bytes_from_scalar(r: &scalar) -> (bin: [u8; 32])
    ensures
        be_val(bin) == val4(*r),
        bin == scalar_to_bytes(*r),
{
    let bin: [u8; 32] = [
        (r[3] >> 56) as u8,
        (r[3] >> 48) as u8,
        (r[3] >> 40) as u8,
        (r[3] >> 32) as u8,
        (r[3] >> 24) as u8,
        (r[3] >> 16) as u8,
        (r[3] >> 8) as u8,
        r[3] as u8,
        (r[2] >> 56) as u8,
        (r[2] >> 48) as u8,
        (r[2] >> 40) as u8,
        (r[2] >> 32) as u8,
        (r[2] >> 24) as u8,
        (r[2] >> 16) as u8,
        (r[2] >> 8) as u8,
        r[2] as u8,
        (r[1] >> 56) as u8,
        (r[1] >> 48) as u8,
        (r[1] >> 40) as u8,
        (r[1] >> 32) as u8,
        (r[1] >> 24) as u8,
        (r[1] >> 16) as u8,
        (r[1] >> 8) as u8,
        r[1] as u8,
        (r[0] >> 56) as u8,
        (r[0] >> 48) as u8,
        (r[0] >> 40) as u8,
        (r[0] >> 32) as u8,
        (r[0] >> 24) as u8,
        (r[0] >> 16) as u8,
        (r[0] >> 8) as u8,
        r[0] as u8,
    ];
    proof {
        lemma_word_bytes(r[0]);
        lemma_word_bytes(r[1]);
        lemma_word_bytes(r[2]);
        lemma_word_bytes(r[3]);
    }
    bin
}

/// The bytes of [`scalar_to_bytes`] stand for the scalar.
pub proof fn lemma_scalar_bytes_value(r: scalar)
    ensures
        be_val(scalar_to_bytes(r)) == val4(r),
{
    lemma_word_bytes(r[0]);
    lemma_word_bytes(r[1]);
    lemma_word_bytes(r[2]);
    lemma_word_bytes(r[3]);
}

/// The big-endian word at offset `o` of `b`.
fn be_word_at(b: &[u8; 32], o: usize) -> (w: u64)
    requires
        o + 8 <= 32,
    ensures
        w == be_word(*b, o as int),
{
    proof {
        lemma_bytes_word(b[o as int], b[o + 1], b[o + 2], b[o + 3], b[o + 4], b[o + 5], b[o + 6], b[o + 7]);
    }
    b[o + 7] as u64 | (b[o + 6] as u64) << 8 | (b[o + 5] as u64) << 16 | (b[o + 4] as u64) << 24
        | (b[o + 3] as u64) << 32 | (b[o + 2] as u64) << 40 | (b[o + 1] as u64) << 48
        | (b[o] as u64) << 56
}

/// The scalar that 32 big-endian bytes stand for, reduced modulo the order.
pub fn secp256k1_scalar_set_b32(b32: &[u8; 32]) -> (r: scalar)
    ensures
        val4(r) == be_val(*b32) % group_order(),
        is_reduced(r),
{
    let mut r: scalar = [be_word_at(b32, 24), be_word_at(b32, 16), be_word_at(b32, 8), be_word_at(b32, 0)];
    let ov = secp256k1_scalar_check_overflow(&r);
    let ghost x = val4(r);
    secp256k1_scalar_reduce(&mut r, ov);
    proof {
        if x >= group_order() {
            vstd::arithmetic::div_mod::lemma_fundamental_div_mod_converse(
                x, group_order(), 1, x - group_order());
        } else {
            vstd::arithmetic::div_mod::lemma_small_mod(x as nat, group_order() as nat);
        }
    }
    r
}


/// `2^256 - n`, which is congruent to `2^256` modulo the order.
#[verifier::inline]
pub open spec fn order_complement() -> int {
    w4() - group_order()
}

/// The integer that eight limbs stand for.
pub open spec fn val8(l: [u64; 8]) -> int {
    l[0] + l[1] * w1() + l[2] * w2() + l[3] * w3() + (l[4] + l[5] * w1() + l[6] * w2() + l[7]
        * w3()) * w4()
}

/// The value of a three-limb accumulator.
pub open spec fn acc_val(c: (u64, u64, u64)) -> int {
    c.0 + c.1 * w1() + c.2 * w2()
}

proof fn lemma_limb_product_bound(a: u64, b: u64)
    ensures
        0 <= a * b <= 0xFFFF_FFFF_FFFF_FFFE_0000_0000_0000_0001int,
{
    assert(0 <= a * b <= 0xFFFF_FFFF_FFFF_FFFE_0000_0000_0000_0001int) by (nonlinear_arith)
        requires
            a <= 0xFFFF_FFFF_FFFF_FFFFint,
            b <= 0xFFFF_FFFF_FFFF_FFFFint,
    ;
}

/// The low and high limb of a product of two limbs.
fn mul_wide(a: u64, b: u64) -> (r: (u64, u64))
    ensures
        r.0 + r.1 * w1() == a * b,
        r.1 <= 0xFFFF_FFFF_FFFF_FFFEu64,
{
    proof {
        lemma_limb_product_bound(a, b);
    }
    let t: u128 = a as u128 * b as u128;
    ((t % 0x1_0000_0000_0000_0000u128) as u64, (t / 0x1_0000_0000_0000_0000u128) as u64)
}

/// Adds `a * b` to the accumulator `c`.
fn muladd(a: u64, b: u64, c: &mut (u64, u64, u64))
    requires
        old(c).2 < 0xFFFF_FFFF_FFFF_FFFFu64,
    ensures
        acc_val(*final(c)) == acc_val(*old(c)) + a * b,
        final(c).2 <= old(c).2 + 1,
{
    let (tl, th) = mul_wide(a, b);
    let (c0, k0) = add_with_carry(c.0, tl, 0);
    let (c1, k1) = add_with_carry(c.1, th, k0);
    *c = (c0, c1, c.2 + k1);
}

/// Adds `a * b` to the accumulator `c`, whose top limb is zero and stays so.
fn muladd_fast(a: u64, b: u64, c: &mut (u64, u64, u64))
    requires
        old(c).2 == 0,
        acc_val(*old(c)) + a * b < w2(),
    ensures
        acc_val(*final(c)) == acc_val(*old(c)) + a * b,
        final(c).2 == 0,
{
    let (tl, th) = mul_wide(a, b);
    let (c0, k0) = add_with_carry(c.0, tl, 0);
    let (c1, k1) = add_with_carry(c.1, th, k0);
    *c = (c0, c1, 0);
}

/// Adds `2 * a * b` to the accumulator `c`, whose value stays below 2^192.
pub fn muladd2(a: u64, b: u64, c: &mut (u64, u64, u64))
    requires
        acc_val(*old(c)) + 2 * (a * b) < w3(),
    ensures
        acc_val(*final(c)) == acc_val(*old(c)) + 2 * (a * b),
{
    let (tl, th) = mul_wide(a, b);
    let (c0, k0) = add_with_carry(c.0, tl, 0);
    let (c0, k1) = add_with_carry(c0, tl, 0);
    let (c1, k2) = add_with_carry(c.1, th, k0);
    let (c1, k3) = add_with_carry(c1, th, k1);
    proof {
        lemma_limb_product_bound(a, b);
        assert(c0 + c1 * w1() + (c.2 + k2 + k3) * w2() == acc_val(*c) + 2 * (a * b));
    }
    *c = (c0, c1, c.2 + k2 + k3);
}

/// Adds `a` to the accumulator `c`.
fn sumadd(a: u64, c: &mut (u64, u64, u64))
    requires
        old(c).2 < 0xFFFF_FFFF_FFFF_FFFFu64,
    ensures
        acc_val(*final(c)) == acc_val(*old(c)) + a,
        final(c).2 <= old(c).2 + 1,
{
    let (c0, k0) = add_with_carry(c.0, a, 0);
    let (c1, k1) = add_with_carry(c.1, 0, k0);
    *c = (c0, c1, c.2 + k1);
}

/// Adds `a` to the accumulator `c`, whose top limb is zero and stays so.
fn sumadd_fast(a: u64, c: &mut (u64, u64, u64))
    requires
        old(c).2 == 0,
        acc_val(*old(c)) + a < w2(),
    ensures
        acc_val(*final(c)) == acc_val(*old(c)) + a,
        final(c).2 == 0,
{
    let (c0, k0) = add_with_carry(c.0, a, 0);
    let (c1, k1) = add_with_carry(c.1, 0, k0);
    *c = (c0, c1, 0);
}

/// Takes the lowest limb out of the accumulator and shifts the rest down.
fn extract(c: &mut (u64, u64, u64)) -> (n: u64)
    ensures
        acc_val(*old(c)) == n + acc_val(*final(c)) * w1(),
        final(c).2 == 0,
{
    let n = c.0;
    *c = (c.1, c.2, 0);
    n
}

/// Takes the lowest limb out of an accumulator whose top limb is zero.
fn extract_fast(c: &mut (u64, u64, u64)) -> (n: u64)
    requires
        old(c).2 == 0,
    ensures
        acc_val(*old(c)) == n + acc_val(*final(c)) * w1(),
        final(c).1 == 0,
        final(c).2 == 0,
{
    let n = c.0;
    *c = (c.1, 0, 0);
    n
}


/// One limb times a four-limb number, term by term.
proof fn lemma_mul_limbs(a: int, c0: int, c1: int, c2: int, c3: int)
    by (nonlinear_arith)
    ensures
        a * (c0 + c1 * w1() + c2 * w2() + c3 * w3()) == a * c0 + (a * c1) * w1() + (a * c2) * w2()
            + (a * c3) * w3(),
{
}

proof fn lemma_val4_bound(a: scalar)
    ensures
        0 <= val4(a) < w4(),
{
}

/// The product of two four-limb numbers, column by column.
proof fn lemma_product_columns(a: scalar, b: scalar)
    ensures
        val4(a) * val4(b) == a[0] * b[0] + (a[0] * b[1] + a[1] * b[0]) * w1() + (a[0] * b[2]
            + a[1] * b[1] + a[2] * b[0]) * w2() + (a[0] * b[3] + a[1] * b[2] + a[2] * b[1] + a[3]
            * b[0]) * w3() + (a[1] * b[3] + a[2] * b[2] + a[3] * b[1]) * w4() + (a[2] * b[3]
            + a[3] * b[2]) * w5() + a[3] * b[3] * w6(),
        0 <= val4(a) * val4(b) < w4() * w4(),
{
    let v = val4(b);
    let (a0, a1, a2, a3) = (a[0] as int, a[1] as int, a[2] as int, a[3] as int);
    let (c0, c1, c2, c3) = (b[0] as int, b[1] as int, b[2] as int, b[3] as int);
    lemma_mul_limbs(v, a0, a1, a2, a3);
    lemma_mul_limbs(a0, c0, c1, c2, c3);
    lemma_mul_limbs(a1, c0, c1, c2, c3);
    lemma_mul_limbs(a2, c0, c1, c2, c3);
    lemma_mul_limbs(a3, c0, c1, c2, c3);
    assert(val4(a) * v == v * val4(a)) by (nonlinear_arith);
    assert(v * a0 == a0 * v) by (nonlinear_arith);
    assert(v * a1 == a1 * v) by (nonlinear_arith);
    assert(v * a2 == a2 * v) by (nonlinear_arith);
    assert(v * a3 == a3 * v) by (nonlinear_arith);
    assert(val4(a) * v == a0 * v + (a1 * v) * w1() + (a2 * v) * w2() + (a3 * v) * w3());
    let (r0, r1, r2, r3) = (a0 * v, a1 * v, a2 * v, a3 * v);
    assert(r0 == a0 * c0 + (a0 * c1) * w1() + (a0 * c2) * w2() + (a0 * c3) * w3());
    assert(r1 == a1 * c0 + (a1 * c1) * w1() + (a1 * c2) * w2() + (a1 * c3) * w3());
    assert(r2 == a2 * c0 + (a2 * c1) * w1() + (a2 * c2) * w2() + (a2 * c3) * w3());
    assert(r3 == a3 * c0 + (a3 * c1) * w1() + (a3 * c2) * w2() + (a3 * c3) * w3());
    lemma_val4_bound(a);
    lemma_val4_bound(b);
    assert(0 <= val4(a) * val4(b) < w4() * w4()) by (nonlinear_arith)
        requires
            0 <= val4(a) < w4(),
            0 <= val4(b) < w4(),
    ;
}

/// The full 512-bit product of two scalars.
pub fn secp256k1_scalar_mul_512(a: &scalar, b: &scalar) -> (l: [u64; 8])
    ensures
        val8(l) == val4(*a) * val4(*b),
{
    let (a0, a1, a2, a3) = (a[0], a[1], a[2], a[3]);
    let (b0, b1, b2, b3) = (b[0], b[1], b[2], b[3]);
    proof {
        lemma_product_columns(*a, *b);
        lemma_limb_product_bound(a0, b0);
        lemma_limb_product_bound(a3, b3);
    }
    let mut c: (u64, u64, u64) = (0, 0, 0);
    muladd_fast(a0, b0, &mut c);
    let l0 = extract_fast(&mut c);
    assert(l0 + acc_val(c) * w1() == a0 * b0);
    muladd(a0, b1, &mut c);
    muladd(a1, b0, &mut c);
    let l1 = extract(&mut c);
    assert(l0 + l1 * w1() + acc_val(c) * w2() == a0 * b0 + (a0 * b1 + a1 * b0) * w1());
    muladd(a0, b2, &mut c);
    muladd(a1, b1, &mut c);
    muladd(a2, b0, &mut c);
    let l2 = extract(&mut c);
    assert(l0 + l1 * w1() + l2 * w2() + acc_val(c) * w3() == a0 * b0 + (a0 * b1 + a1 * b0) * w1()
        + (a0 * b2 + a1 * b1 + a2 * b0) * w2());
    muladd(a0, b3, &mut c);
    muladd(a1, b2, &mut c);
    muladd(a2, b1, &mut c);
    muladd(a3, b0, &mut c);
    let l3 = extract(&mut c);
    assert(l0 + l1 * w1() + l2 * w2() + l3 * w3() + acc_val(c) * w4() == a0 * b0 + (a0 * b1 + a1
        * b0) * w1() + (a0 * b2 + a1 * b1 + a2 * b0) * w2() + (a0 * b3 + a1 * b2 + a2 * b1 + a3
        * b0) * w3());
    muladd(a1, b3, &mut c);
    muladd(a2, b2, &mut c);
    muladd(a3, b1, &mut c);
    let l4 = extract(&mut c);
    muladd(a2, b3, &mut c);
    muladd(a3, b2, &mut c);
    let l5 = extract(&mut c);
    assert(l0 + l1 * w1() + l2 * w2() + l3 * w3() + l4 * w4() + l5 * w5() + (acc_val(c) + a3 * b3)
        * w6() == val4(*a) * val4(*b));
    muladd_fast(a3, b3, &mut c);
    let l6 = extract_fast(&mut c);
    [l0, l1, l2, l3, l4, l5, l6, c.0]
}

/// The full 512-bit square of a scalar; each cross product is computed once
/// and doubled.
pub fn secp256k1_scalar_sqr_512(a: &scalar) -> (l: [u64; 8])
    ensures
        val8(l) == val4(*a) * val4(*a),
{
    let (a0, a1, a2, a3) = (a[0], a[1], a[2], a[3]);
    proof {
        lemma_product_columns(*a, *a);
        lemma_limb_product_bound(a0, a0);
        lemma_limb_product_bound(a0, a1);
        lemma_limb_product_bound(a0, a2);
        lemma_limb_product_bound(a0, a3);
        lemma_limb_product_bound(a1, a1);
        lemma_limb_product_bound(a1, a2);
        lemma_limb_product_bound(a1, a3);
        lemma_limb_product_bound(a2, a2);
        lemma_limb_product_bound(a2, a3);
        lemma_limb_product_bound(a3, a3);
        assert(a1 * a0 == a0 * a1) by (nonlinear_arith);
        assert(a2 * a0 == a0 * a2) by (nonlinear_arith);
        assert(a3 * a0 == a0 * a3) by (nonlinear_arith);
        assert(a2 * a1 == a1 * a2) by (nonlinear_arith);
        assert(a3 * a1 == a1 * a3) by (nonlinear_arith);
        assert(a3 * a2 == a2 * a3) by (nonlinear_arith);
    }
    let mut c: (u64, u64, u64) = (0, 0, 0);
    muladd_fast(a0, a0, &mut c);
    let l0 = extract_fast(&mut c);
    assert(l0 + acc_val(c) * w1() == a0 * a0);
    muladd2(a0, a1, &mut c);
    let l1 = extract(&mut c);
    assert(l0 + l1 * w1() + acc_val(c) * w2() == a0 * a0 + 2 * (a0 * a1) * w1());
    muladd2(a0, a2, &mut c);
    muladd(a1, a1, &mut c);
    let l2 = extract(&mut c);
    assert(l0 + l1 * w1() + l2 * w2() + acc_val(c) * w3() == a0 * a0 + 2 * (a0 * a1) * w1() + (2
        * (a0 * a2) + a1 * a1) * w2());
    muladd2(a0, a3, &mut c);
    muladd2(a1, a2, &mut c);
    let l3 = extract(&mut c);
    assert(l0 + l1 * w1() + l2 * w2() + l3 * w3() + acc_val(c) * w4() == a0 * a0 + 2 * (a0 * a1)
        * w1() + (2 * (a0 * a2) + a1 * a1) * w2() + (2 * (a0 * a3) + 2 * (a1 * a2)) * w3());
    muladd2(a1, a3, &mut c);
    muladd(a2, a2, &mut c);
    let l4 = extract(&mut c);
    muladd2(a2, a3, &mut c);
    let l5 = extract(&mut c);
    assert(l0 + l1 * w1() + l2 * w2() + l3 * w3() + l4 * w4() + l5 * w5() + (acc_val(c) + a3 * a3)
        * w6() == val4(*a) * val4(*a));
    muladd_fast(a3, a3, &mut c);
    let l6 = extract_fast(&mut c);
    [l0, l1, l2, l3, l4, l5, l6, c.0]
}

/// The low half of eight limbs.
pub open spec fn lo_half(l: [u64; 8]) -> int {
    l[0] + l[1] * w1() + l[2] * w2() + l[3] * w3()
}

/// The high half of eight limbs.
pub open spec fn hi_half(l: [u64; 8]) -> int {
    l[4] + l[5] * w1() + l[6] * w2() + l[7] * w3()
}

/// The integer that seven limbs stand for.
pub open spec fn val7(m: [u64; 7]) -> int {
    m[0] + m[1] * w1() + m[2] * w2() + m[3] * w3() + m[4] * w4() + m[5] * w5() + m[6] * w6()
}

/// The integer that five limbs stand for.
pub open spec fn val5(p: [u64; 5]) -> int {
    p[0] + p[1] * w1() + p[2] * w2() + p[3] * w3() + p[4] * w4()
}

/* In the folds below the limbs of 2^256 - n stand as literals:
 * 0x402DA1732FC9BEBF is SECP256K1_N_C_0 and 0x4551231950B75FC4 is SECP256K1_N_C_1. */

/// First fold, 512 bits into 385: the high half, weighted 2^256, is
/// multiplied by 2^256 - n instead.
fn fold_512(l: &[u64; 8]) -> (m: [u64; 7])
    ensures
        val7(m) == lo_half(*l) + hi_half(*l) * order_complement(),
        m[6] <= 1,
{
    let (n0, n1, n2, n3) = (l[4], l[5], l[6], l[7]);
    let ghost t = lo_half(*l) + hi_half(*l) * order_complement();
    let mut c: (u64, u64, u64) = (l[0], 0, 0);
    muladd_fast(n0, 0x402DA1732FC9BEBFu64, &mut c);
    let m0 = extract_fast(&mut c);
    sumadd_fast(l[1], &mut c);
    muladd(n1, 0x402DA1732FC9BEBFu64, &mut c);
    muladd(n0, 0x4551231950B75FC4u64, &mut c);
    let m1 = extract(&mut c);
    sumadd(l[2], &mut c);
    muladd(n2, 0x402DA1732FC9BEBFu64, &mut c);
    muladd(n1, 0x4551231950B75FC4u64, &mut c);
    sumadd(n0, &mut c);
    let m2 = extract(&mut c);
    sumadd(l[3], &mut c);
    muladd(n3, 0x402DA1732FC9BEBFu64, &mut c);
    muladd(n2, 0x4551231950B75FC4u64, &mut c);
    sumadd(n1, &mut c);
    let m3 = extract(&mut c);
    muladd(n3, 0x4551231950B75FC4u64, &mut c);
    sumadd(n2, &mut c);
    let m4 = extract(&mut c);
    assert(m0 + m1 * w1() + m2 * w2() + m3 * w3() + m4 * w4() + (acc_val(c) + n3) * w5() == t);
    sumadd_fast(n3, &mut c);
    let m5 = extract_fast(&mut c);
    [m0, m1, m2, m3, m4, m5, c.0]
}

/// Second fold, 385 bits into 258.
fn fold_385(m: &[u64; 7]) -> (p: [u64; 5])
    requires
        m[6] <= 1,
        val7(*m) < w4() + (w4() - 1) * order_complement(),
    ensures
        val5(p) == m[0] + m[1] * w1() + m[2] * w2() + m[3] * w3() + (m[4] + m[5] * w1() + m[6]
            * w2()) * order_complement(),
        p[4] <= 2,
{
    let (m0, m1, m2, m3, m4, m5, m6) = (m[0], m[1], m[2], m[3], m[4], m[5], m[6]);
    let ghost t = m0 + m1 * w1() + m2 * w2() + m3 * w3() + (m4 + m5 * w1() + m6 * w2())
        * order_complement();
    let mut c: (u64, u64, u64) = (m0, 0, 0);
    muladd_fast(m4, 0x402DA1732FC9BEBFu64, &mut c);
    let p0 = extract_fast(&mut c);
    sumadd_fast(m1, &mut c);
    muladd(m5, 0x402DA1732FC9BEBFu64, &mut c);
    muladd(m4, 0x4551231950B75FC4u64, &mut c);
    let p1 = extract(&mut c);
    sumadd(m2, &mut c);
    muladd(m6, 0x402DA1732FC9BEBFu64, &mut c);
    muladd(m5, 0x4551231950B75FC4u64, &mut c);
    sumadd(m4, &mut c);
    let p2 = extract(&mut c);
    assert(p0 + p1 * w1() + p2 * w2() + (acc_val(c) + m3 + m6 * 0x4551231950B75FC4u64 + m5) * w3()
        + m6 * w4() == t);
    sumadd_fast(m3, &mut c);
    muladd_fast(m6, 0x4551231950B75FC4u64, &mut c);
    sumadd_fast(m5, &mut c);
    let p3 = extract_fast(&mut c);
    [p0, p1, p2, p3, c.0 + m6]
}

/// Last fold, 258 bits into 256 and a carry.
fn fold_258(p: &[u64; 5]) -> (res: (scalar, u64))
    requires
        p[4] <= 2,
    ensures
        val4(res.0) + res.1 * w4() == p[0] + p[1] * w1() + p[2] * w2() + p[3] * w3() + p[4]
            * order_complement(),
        res.1 <= 1,
{
    let (p0, p1, p2, p3, p4) = (p[0], p[1], p[2], p[3], p[4]);
    let mut c: u128 = p0 as u128 + 0x402DA1732FC9BEBFu128 * p4 as u128;
    let r0 = (c % 0x1_0000_0000_0000_0000u128) as u64;
    c = c / 0x1_0000_0000_0000_0000u128;
    c = c + p1 as u128 + 0x4551231950B75FC4u128 * p4 as u128;
    let r1 = (c % 0x1_0000_0000_0000_0000u128) as u64;
    c = c / 0x1_0000_0000_0000_0000u128;
    c = c + p2 as u128 + p4 as u128;
    let r2 = (c % 0x1_0000_0000_0000_0000u128) as u64;
    c = c / 0x1_0000_0000_0000_0000u128;
    c = c + p3 as u128;
    let r3 = (c % 0x1_0000_0000_0000_0000u128) as u64;
    c = c / 0x1_0000_0000_0000_0000u128;
    ([r0, r1, r2, r3], c as u64)
}

/// `x` and `q` differ by a multiple of the order and `q` lies below twice the
/// order: `x mod n` is `q`, less the order where `q` reaches it.
proof fn lemma_mod_of_near(x: int, q: int, k: int)
    requires
        x == group_order() * k + q,
        0 <= q < 2 * group_order(),
    ensures
        x % group_order() == if q >= group_order() { q - group_order() } else { q },
{
    let n = group_order();
    vstd::arithmetic::div_mod::lemma_mod_multiples_vanish(k, q, n);
    if q >= n {
        vstd::arithmetic::div_mod::lemma_fundamental_div_mod_converse(q, n, 1, q - n);
    } else {
        vstd::arithmetic::div_mod::lemma_small_mod(q as nat, n as nat);
    }
}

/// Reduces a 512-bit value modulo the order: two folds, a last fold of the
/// bits above 256, and a conditional subtraction.
pub fn secp256k1_scalar_reduce_512(l: &[u64; 8]) -> (r: scalar)
    ensures
        val4(r) == val8(*l) % group_order(),
        is_reduced(r),
{
    let m = fold_512(l);
    let p = fold_385(&m);
    let (t, carry) = fold_258(&p);
    let mut r = t;
    let ghost q = val4(r) + carry * w4();
    let overflow = carry > 0 || secp256k1_scalar_check_overflow(&r);
    secp256k1_scalar_reduce(&mut r, overflow);
    proof {
        let k = hi_half(*l) + (m[4] + m[5] * w1() + m[6] * w2()) + p[4];
        assert(val8(*l) == group_order() * k + q);
        lemma_mod_of_near(val8(*l), q, k);
    }
    r
}

/// `a * b mod n`.
pub fn secp256k1_scalar_mul(a: &scalar, b: &scalar) -> (r: scalar)
    ensures
        val4(r) == (val4(*a) * val4(*b)) % group_order(),
        is_reduced(r),
{
    let l = secp256k1_scalar_mul_512(a, b);
    secp256k1_scalar_reduce_512(&l)
}

/// `a * a mod n`.
pub fn secp256k1_scalar_sqr(a: &scalar) -> (r: scalar)
    ensures
        val4(r) == (val4(*a) * val4(*a)) % group_order(),
        is_reduced(r),
{
    let l = secp256k1_scalar_sqr_512(a);
    secp256k1_scalar_reduce_512(&l)
}

/// `a := a * 256^bytes mod n`, by `8 * bytes` doublings. The number of
/// doublings depends on `bytes`, which must not be secret.
pub fn non_constant_time_shift(a: &mut scalar, bytes: u8)
    requires
        is_reduced(*old(a)),
        bytes <= 31,
    ensures
        val4(*final(a)) == (val4(*old(a)) * pow2(8 * bytes as nat)) % group_order(),
        is_reduced(*final(a)),
{
    let ghost v = val4(*a);
    let n: u16 = bytes as u16 * 8;
    let mut i: u16 = 0;
    proof {
        vstd::arithmetic::power2::lemma2_to64();
        vstd::arithmetic::div_mod::lemma_small_mod(v as nat, group_order() as nat);
    }
    while i < n
        invariant
            i <= n,
            n == 8 * bytes,
            is_reduced(*a),
            val4(*a) == (v * pow2(i as nat)) % group_order(),
        decreases n - i,
    {
        secp256k1_scalar_double(a);
        proof {
            let m = group_order();
            let x = v * pow2(i as nat);
            vstd::arithmetic::power2::lemma_pow2_unfold((i + 1) as nat);
            vstd::arithmetic::div_mod::lemma_mul_mod_noop_right(2, x, m);
            assert(2 * x == v * pow2((i + 1) as nat)) by (nonlinear_arith)
                requires
                    x == v * pow2(i as nat),
                    pow2((i + 1) as nat) == 2 * pow2(i as nat),
            ;
        }
        i = i + 1;
    }
}

/// Every multiple `0 * s, 1 * s, ..., 255 * s` of `s`, by repeated addition.
pub fn scalar_mul_by_256(s: &scalar) -> (x: [scalar; 256])
    requires
        is_reduced(*s),
    ensures
        forall|i: int| 0 <= i < 256 ==> #[trigger] val4(x[i]) == (i * val4(*s)) % group_order(),
        forall|i: int| 0 <= i < 256 ==> is_reduced(#[trigger] x[i]),
{
    let mut x: [scalar; 256] = [[0u64; 4]; 256];
    let mut i: usize = 1;
    proof {
        vstd::arithmetic::div_mod::lemma_small_mod(0, group_order() as nat);
    }
    while i < 256
        invariant
            1 <= i <= 256,
            is_reduced(*s),
            forall|j: int| 0 <= j < i ==> #[trigger] val4(x[j]) == (j * val4(*s)) % group_order(),
            forall|j: int| 0 <= j < i ==> is_reduced(#[trigger] x[j]),
        decreases 256 - i,
    {
        let mut t = x[i - 1];
        secp256k1_scalar_add_assign(&mut t, s);
        proof {
            let m = group_order();
            let v = val4(*s);
            let p = (i - 1) * v;
            vstd::arithmetic::div_mod::lemma_add_mod_noop(p, v, m);
            vstd::arithmetic::div_mod::lemma_small_mod(v as nat, m as nat);
            vstd::arithmetic::div_mod::lemma_mod_twice(p, m);
            assert(p + v == i * v) by (nonlinear_arith)
                requires
                    p == (i - 1) * v,
            ;
        }
        x[i] = t;
        i = i + 1;
    }
    x
}

/// Adds `c` to every entry of `s`, modulo the order.
pub fn assign_add(s: &mut [scalar; 256], c: &scalar)
    requires
        is_reduced(*c),
        forall|i: int| 0 <= i < 256 ==> is_reduced(#[trigger] old(s)[i]),
    ensures
        forall|i: int|
            0 <= i < 256 ==> #[trigger] val4(final(s)[i]) == (val4(old(s)[i]) + val4(*c))
                % group_order(),
        forall|i: int| 0 <= i < 256 ==> is_reduced(#[trigger] final(s)[i]),
{
    let ghost s0 = *s;
    let mut i: usize = 0;
    while i < 256
        invariant
            0 <= i <= 256,
            is_reduced(*c),
            forall|j: int|
                0 <= j < i ==> #[trigger] val4(s[j]) == (val4(s0[j]) + val4(*c)) % group_order(),
            forall|j: int| i <= j < 256 ==> #[trigger] s[j] == s0[j],
            forall|j: int| 0 <= j < 256 ==> is_reduced(#[trigger] s[j]),
        decreases 256 - i,
    {
        let mut t = s[i];
        secp256k1_scalar_add_assign(&mut t, c);
        s[i] = t;
        i = i + 1;
    }
}

/// The exponent-and-modulus fact behind a product of two powers.
proof fn lemma_pow_mod_mul(v: int, e1: nat, e2: nat)
    ensures
        ((pow(v, e1) % group_order()) * (pow(v, e2) % group_order())) % group_order() == pow(
            v,
            e1 + e2,
        ) % group_order(),
{
    vstd::arithmetic::div_mod::lemma_mul_mod_noop(pow(v, e1), pow(v, e2), group_order());
    vstd::arithmetic::power::lemma_pow_adds(v, e1, e2);
}

/// Squares `a` the given number of times.
fn sqr_times(a: &scalar, times: usize) -> (r: scalar)
    requires
        is_reduced(*a),
    ensures
        val4(r) == pow(val4(*a), pow2(times as nat)) % group_order(),
        is_reduced(r),
{
    let mut r = *a;
    let mut i: usize = 0;
    proof {
        vstd::arithmetic::power2::lemma2_to64();
        vstd::arithmetic::power::lemma_pow1(val4(*a));
        vstd::arithmetic::div_mod::lemma_small_mod(val4(*a) as nat, group_order() as nat);
    }
    while i < times
        invariant
            i <= times,
            is_reduced(r),
            val4(r) == pow(val4(*a), pow2(i as nat)) % group_order(),
        decreases times - i,
    {
        r = secp256k1_scalar_sqr(&r);
        proof {
            lemma_pow_mod_mul(val4(*a), pow2(i as nat), pow2(i as nat));
            vstd::arithmetic::power2::lemma_pow2_unfold((i + 1) as nat);
        }
        i = i + 1;
    }
    r
}

/// Squares `a` the given number of times, then multiplies by `b`; over
/// powers of one base `v` the exponents combine as `ea * 2^times + eb`.
fn sqr_mul(a: &scalar, times: usize, b: &scalar, Ghost(v): Ghost<int>, Ghost(ea): Ghost<nat>, Ghost(eb): Ghost<nat>) -> (r: scalar)
    requires
        is_reduced(*a),
        is_reduced(*b),
        val4(*a) == pow(v, ea) % group_order(),
        val4(*b) == pow(v, eb) % group_order(),
    ensures
        val4(r) == pow(v, ea * pow2(times as nat) + eb) % group_order(),
        is_reduced(r),
{
    let s = sqr_times(a, times);
    proof {
        let m = group_order();
        vstd::arithmetic::power::lemma_pow_mod_noop(pow(v, ea), pow2(times as nat), m);
        vstd::arithmetic::power::lemma_pow_multiplies(v, ea, pow2(times as nat));
        lemma_pow_mod_mul(v, ea * pow2(times as nat), eb);
    }
    secp256k1_scalar_mul(&s, b)
}

/// `x^(n - 2) mod n` by a fixed chain of squarings and multiplications; the
/// sequence of operations does not depend on `x`. For a nonzero `x` this is
/// the inverse of `x`, the order being prime.
pub fn secp256k1_scalar_inverse(x: &scalar) -> (r: scalar)
    requires
        is_reduced(*x),
    ensures
        val4(r) == pow(val4(*x), (group_order() - 2) as nat) % group_order(),
        is_reduced(r),
{
    let ghost v = val4(*x);
    proof {
        vstd::arithmetic::power2::lemma2_to64();
        vstd::arithmetic::power2::lemma2_to64_rest();
        vstd::arithmetic::power::lemma_pow1(v);
        vstd::arithmetic::div_mod::lemma_small_mod(v as nat, group_order() as nat);
    }
    /* First compute xN as x ^ (2^N - 1) for some values of N,
     * and uM as x ^ M for some values of M. */
    let u2 = secp256k1_scalar_sqr(x);
    proof {
        lemma_pow_mod_mul(v, 1, 1);
    }
    let ghost e_u2: nat = 2;
    let x2 = sqr_mul(&u2, 0, x, Ghost(v), Ghost(e_u2), Ghost(1));
    let ghost e_x2: nat = 3;
    let u5 = sqr_mul(&u2, 0, &x2, Ghost(v), Ghost(e_u2), Ghost(e_x2));
    let ghost e_u5: nat = 5;
    let x3 = sqr_mul(&u5, 0, &u2, Ghost(v), Ghost(e_u5), Ghost(e_u2));
    let ghost e_x3: nat = 7;
    let u9 = sqr_mul(&x3, 0, &u2, Ghost(v), Ghost(e_x3), Ghost(e_u2));
    let ghost e_u9: nat = 9;
    let u11 = sqr_mul(&u9, 0, &u2, Ghost(v), Ghost(e_u9), Ghost(e_u2));
    let ghost e_u11: nat = 11;
    let u13 = sqr_mul(&u11, 0, &u2, Ghost(v), Ghost(e_u11), Ghost(e_u2));
    let ghost e_u13: nat = 13;

    let x6 = sqr_mul(&u13, 2, &u11, Ghost(v), Ghost(e_u13), Ghost(e_u11));
    let ghost e_x6: nat = 63;
    let x8 = sqr_mul(&x6, 2, &x2, Ghost(v), Ghost(e_x6), Ghost(e_x2));
    let ghost e_x8: nat = 255;
    let x14 = sqr_mul(&x8, 6, &x6, Ghost(v), Ghost(e_x8), Ghost(e_x6));
    let ghost e_x14: nat = e_x8 * pow2(6) + e_x6;
    let x28 = sqr_mul(&x14, 14, &x14, Ghost(v), Ghost(e_x14), Ghost(e_x14));
    let ghost e_x28: nat = e_x14 * pow2(14) + e_x14;
    let x56 = sqr_mul(&x28, 28, &x28, Ghost(v), Ghost(e_x28), Ghost(e_x28));
    let ghost e_x56: nat = e_x28 * pow2(28) + e_x28;
    let x112 = sqr_mul(&x56, 56, &x56, Ghost(v), Ghost(e_x56), Ghost(e_x56));
    let ghost e_x112: nat = e_x56 * pow2(56) + e_x56;
    let x126 = sqr_mul(&x112, 14, &x14, Ghost(v), Ghost(e_x112), Ghost(e_x14));

    /* Then accumulate the final result (t starts at x126). */
    let ghost mut e: nat = e_x112 * pow2(14) + e_x14;
    let mut t = x126;
    t = sqr_mul(&t, 3, &u5, Ghost(v), Ghost(e), Ghost(e_u5)); /* 101 */
    proof { e = e * pow2(3) + e_u5; }
    t = sqr_mul(&t, 4, &x3, Ghost(v), Ghost(e), Ghost(e_x3)); /* 111 */
    proof { e = e * pow2(4) + e_x3; }
    t = sqr_mul(&t, 4, &u5, Ghost(v), Ghost(e), Ghost(e_u5)); /* 101 */
    proof { e = e * pow2(4) + e_u5; }
    t = sqr_mul(&t, 5, &u11, Ghost(v), Ghost(e), Ghost(e_u11)); /* 1011 */
    proof { e = e * pow2(5) + e_u11; }
    t = sqr_mul(&t, 4, &u11, Ghost(v), Ghost(e), Ghost(e_u11)); /* 1011 */
    proof { e = e * pow2(4) + e_u11; }
    t = sqr_mul(&t, 4, &x3, Ghost(v), Ghost(e), Ghost(e_x3)); /* 111 */
    proof { e = e * pow2(4) + e_x3; }
    t = sqr_mul(&t, 5, &x3, Ghost(v), Ghost(e), Ghost(e_x3)); /* 111 */
    proof { e = e * pow2(5) + e_x3; }
    t = sqr_mul(&t, 6, &u13, Ghost(v), Ghost(e), Ghost(e_u13)); /* 1101 */
    proof { e = e * pow2(6) + e_u13; }
    t = sqr_mul(&t, 4, &u5, Ghost(v), Ghost(e), Ghost(e_u5)); /* 101 */
    proof { e = e * pow2(4) + e_u5; }
    t = sqr_mul(&t, 3, &x3, Ghost(v), Ghost(e), Ghost(e_x3)); /* 111 */
    proof { e = e * pow2(3) + e_x3; }
    t = sqr_mul(&t, 5, &u9, Ghost(v), Ghost(e), Ghost(e_u9)); /* 1001 */
    proof { e = e * pow2(5) + e_u9; }
    t = sqr_mul(&t, 6, &u5, Ghost(v), Ghost(e), Ghost(e_u5)); /* 101 */
    proof { e = e * pow2(6) + e_u5; }
    t = sqr_mul(&t, 10, &x3, Ghost(v), Ghost(e), Ghost(e_x3)); /* 111 */
    proof { e = e * pow2(10) + e_x3; }
    t = sqr_mul(&t, 4, &x3, Ghost(v), Ghost(e), Ghost(e_x3)); /* 111 */
    proof { e = e * pow2(4) + e_x3; }
    t = sqr_mul(&t, 9, &x8, Ghost(v), Ghost(e), Ghost(e_x8)); /* 11111111 */
    proof { e = e * pow2(9) + e_x8; }
    t = sqr_mul(&t, 5, &u9, Ghost(v), Ghost(e), Ghost(e_u9)); /* 1001 */
    proof { e = e * pow2(5) + e_u9; }
    t = sqr_mul(&t, 6, &u11, Ghost(v), Ghost(e), Ghost(e_u11)); /* 1011 */
    proof { e = e * pow2(6) + e_u11; }
    t = sqr_mul(&t, 4, &u13, Ghost(v), Ghost(e), Ghost(e_u13)); /* 1101 */
    proof { e = e * pow2(4) + e_u13; }
    t = sqr_mul(&t, 5, &x2, Ghost(v), Ghost(e), Ghost(e_x2)); /* 11 */
    proof { e = e * pow2(5) + e_x2; }
    t = sqr_mul(&t, 6, &u13, Ghost(v), Ghost(e), Ghost(e_u13)); /* 1101 */
    proof { e = e * pow2(6) + e_u13; }
    t = sqr_mul(&t, 10, &u13, Ghost(v), Ghost(e), Ghost(e_u13)); /* 1101 */
    proof { e = e * pow2(10) + e_u13; }
    t = sqr_mul(&t, 4, &u9, Ghost(v), Ghost(e), Ghost(e_u9)); /* 1001 */
    proof { e = e * pow2(4) + e_u9; }
    t = sqr_mul(&t, 6, x, Ghost(v), Ghost(e), Ghost(1)); /* 1 */
    proof { e = e * pow2(6) + 1; }
    t = sqr_mul(&t, 8, &x6, Ghost(v), Ghost(e), Ghost(e_x6)); /* 111111 */
    proof { e = e * pow2(8) + e_x6; }
    assert(e == group_order() - 2);
    t
}

/// A fresh random scalar, reduced.
pub fn random_scalar() -> (r: scalar)
    ensures
        is_reduced(r),
{
    let b = random_bytes();
    secp256k1_scalar_set_b32(&b)
}

/// A fresh random key: a scalar in `1..n`, or `None` in the rare case the
/// draw is zero.
pub fn generate_key() -> (r: Option<scalar>)
    ensures
        r matches Some(k) ==> is_reduced(k) && val4(k) != 0,
{
    let k = random_scalar();
    if k[0] == 0 && k[1] == 0 && k[2] == 0 && k[3] == 0 {
        None
    } else {
        Some(k)
    }
}

/// Half the group order, rounded down.
#[verifier::inline]
pub open spec fn half_order() -> int {
    group_order() / 2
}

/* Limbs of half the group order. */
pub const SECP256K1_N_H_0: u64 = 0xDFE92F46681B20A0u64;
pub const SECP256K1_N_H_1: u64 = 0x5D576E7357A4501Du64;
pub const SECP256K1_N_H_2: u64 = 0xFFFFFFFFFFFFFFFFu64;
pub const SECP256K1_N_H_3: u64 = 0x7FFFFFFFFFFFFFFFu64;

/// Whether `a` exceeds half the order: the borrow out of `n/2 - a`.
pub fn secp256k1_scalar_is_high(a: &scalar) -> (r: bool)
    ensures
        r == (val4(*a) > half_order()),
{
    let (t0, c0) = sub_with_borrow(SECP256K1_N_H_0, a[0], 0);
    let (t1, c1) = sub_with_borrow(SECP256K1_N_H_1, a[1], c0);
    let (t2, c2) = sub_with_borrow(SECP256K1_N_H_2, a[2], c1);
    let (t3, c3) = sub_with_borrow(SECP256K1_N_H_3, a[3], c2);
    assert(val4([t0, t1, t2, t3]) - c3 * w4() == half_order() - val4(*a));
    c3 == 1
}

/// The low-s form of a signature component: `n - s` where `s` exceeds half
/// the order, else `s`.
pub fn normalize_s(s: &scalar) -> (r: scalar)
    requires
        is_reduced(*s),
    ensures
        val4(r) == if val4(*s) > half_order() { group_order() - val4(*s) } else { val4(*s) },
        val4(r) <= half_order(),
        is_reduced(r),
{
    let mut r = *s;
    if secp256k1_scalar_is_high(s) {
        secp256k1_scalar_negate(&mut r);
        proof {
            vstd::arithmetic::div_mod::lemma_small_mod(
                (group_order() - val4(*s)) as nat,
                group_order() as nat,
            );
        }
    }
    r
}

/// Four limbs below 2^64 each are fixed by the integer they stand for.
pub proof fn lemma_val4_injective(a: scalar, b: scalar)
    requires
        val4(a) == val4(b),
    ensures
        a == b,
{
    let x = val4(a);
    let y = a[1] + a[2] * w1() + a[3] * w2();
    let z = a[2] + a[3] * w1();
    vstd::arithmetic::div_mod::lemma_fundamental_div_mod_converse(x, w1(), y, a[0] as int);
    vstd::arithmetic::div_mod::lemma_fundamental_div_mod_converse(x, w1(), b[1] + b[2] * w1() + b[3] * w2(), b[0] as int);
    vstd::arithmetic::div_mod::lemma_fundamental_div_mod_converse(y, w1(), z, a[1] as int);
    vstd::arithmetic::div_mod::lemma_fundamental_div_mod_converse(y, w1(), b[2] + b[3] * w1(), b[1] as int);
    vstd::arithmetic::div_mod::lemma_fundamental_div_mod_converse(z, w1(), a[3] as int, a[2] as int);
    vstd::arithmetic::div_mod::lemma_fundamental_div_mod_converse(z, w1(), b[3] as int, b[2] as int);
    assert(a =~= b);
}

/// Decoding 32 bytes, encoding the scalar and decoding again gives back the
/// same scalar: decoding yields the canonical form.
pub proof fn lemma_bytes_round_trip(b: [u8; 32], s: scalar, c: [u8; 32], t: scalar)
    requires
        val4(s) == be_val(b) % group_order(),
        be_val(c) == val4(s),
        val4(t) == be_val(c) % group_order(),
    ensures
        t == s,
{
    vstd::arithmetic::div_mod::lemma_mod_bound(be_val(b), group_order());
    vstd::arithmetic::div_mod::lemma_small_mod(val4(s) as nat, group_order() as nat);
    lemma_val4_injective(t, s);
}

/// A reduced scalar plus its negation is zero.
pub proof fn lemma_negate_add_zero(a: scalar, neg: scalar, sum: scalar)
    requires
        is_reduced(a),
        val4(neg) == (group_order() - val4(a)) % group_order(),
        val4(sum) == (val4(neg) + val4(a)) % group_order(),
    ensures
        sum == [0u64, 0, 0, 0],
{
    let n = group_order();
    let x = val4(a);
    if x == 0 {
        vstd::arithmetic::div_mod::lemma_mod_self_0(n);
        vstd::arithmetic::div_mod::lemma_small_mod(0, n as nat);
    } else {
        vstd::arithmetic::div_mod::lemma_small_mod((n - x) as nat, n as nat);
        vstd::arithmetic::div_mod::lemma_mod_self_0(n);
    }
    lemma_val4_injective(sum, [0u64, 0, 0, 0]);
}

/// A scalar times the result of the exponentiation in
/// [`secp256k1_scalar_inverse`] is `a^(n - 1) mod n`. That this is 1 for a
/// nonzero `a` is Fermat's little theorem for the prime order, which is not
/// proved here.
pub proof fn lemma_inverse_product(a: scalar, inv: scalar, prod: scalar)
    requires
        is_reduced(a),
        val4(inv) == pow(val4(a), (group_order() - 2) as nat) % group_order(),
        val4(prod) == (val4(a) * val4(inv)) % group_order(),
    ensures
        val4(prod) == pow(val4(a), (group_order() - 1) as nat) % group_order(),
{
    let x = val4(a);
    let e = (group_order() - 2) as nat;
    vstd::arithmetic::div_mod::lemma_mul_mod_noop_right(x, pow(x, e), group_order());
    vstd::arithmetic::power::lemma_pow_adds(x, 1, e);
    vstd::arithmetic::power::lemma_pow1(x);
    assert((1 + e) as nat == (group_order() - 1) as nat);
}

} // verus!
