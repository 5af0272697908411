//! The three MD4 combining functions and the forward and inverse step
//! operators built from them.
//!
//! A forward operator computes one register update
//! `rotl(a + combine(b, c, d) + m (+ round constant), shift)`; the
//! matching inverse operator recovers the message word `m` from a
//! desired register value. Both directions are exact: rotation and
//! wraparound addition are bijective, which the inverse lemmas below
//! establish.

use vstd::prelude::*;

verus! {

/// Additive constant of the second MD4 round.
pub const ROUND2_CONST: u32 = 0x5A82_7999;

/// Additive constant of the third MD4 round.
pub const ROUND3_CONST: u32 = 0x6ED9_EBA1;

/// Left rotation of a 32-bit word by `s` places, `0 < s < 32`.
pub open spec fn rotl(x: u32, s: u32) -> u32
    recommends
        0 < s < 32,
{
    (x << s) | (x >> ((32 - s) as u32))
}

/// Right rotation of a 32-bit word by `s` places, `0 < s < 32`.
pub open spec fn rotr(x: u32, s: u32) -> u32
    recommends
        0 < s < 32,
{
    (x >> s) | (x << ((32 - s) as u32))
}

/// Conditional select: for each bit, `y` where `x` is set, else `z`.
pub open spec fn spec_f(x: u32, y: u32, z: u32) -> u32 {
    (x & y) | (!x & z)
}

/// Majority: each bit is set where at least two of `x`, `y`, `z` are set.
pub open spec fn spec_g(x: u32, y: u32, z: u32) -> u32 {
    (x & y) | (x & z) | (y & z)
}

/// Parity: bitwise exclusive or of the three words.
pub open spec fn spec_h(x: u32, y: u32, z: u32) -> u32 {
    x ^ y ^ z
}

/// One register update of round 1.
pub open spec fn spec_op1(a: u32, b: u32, c: u32, d: u32, m: u32, s: u32) -> u32
    recommends
        0 < s < 32,
{
    rotl(a.wrapping_add(spec_f(b, c, d)).wrapping_add(m), s)
}

/// One register update of round 2.
pub open spec fn spec_op2(a: u32, b: u32, c: u32, d: u32, m: u32, s: u32) -> u32
    recommends
        0 < s < 32,
{
    rotl(a.wrapping_add(spec_g(b, c, d)).wrapping_add(m).wrapping_add(ROUND2_CONST), s)
}

/// One register update of round 3.
pub open spec fn spec_op3(a: u32, b: u32, c: u32, d: u32, m: u32, s: u32) -> u32
    recommends
        0 < s < 32,
{
    rotl(a.wrapping_add(spec_h(b, c, d)).wrapping_add(m).wrapping_add(ROUND3_CONST), s)
}

/// The message word that makes a round-1 update yield `v`.
pub open spec fn spec_op1_t(v: u32, s: u32, a: u32, b: u32, c: u32, d: u32) -> u32
    recommends
        0 < s < 32,
{
    rotr(v, s).wrapping_sub(a).wrapping_sub(spec_f(b, c, d))
}

/// The message word that makes a round-2 update yield `v`.
pub open spec fn spec_op2_t(v: u32, s: u32, a: u32, b: u32, c: u32, d: u32) -> u32
    recommends
        0 < s < 32,
{
    rotr(v, s).wrapping_sub(a).wrapping_sub(spec_g(b, c, d)).wrapping_sub(ROUND2_CONST)
}

/// The message word that makes a round-3 update yield `v`.
pub open spec fn spec_op3_t(v: u32, s: u32, a: u32, b: u32, c: u32, d: u32) -> u32
    recommends
        0 < s < 32,
{
    rotr(v, s).wrapping_sub(a).wrapping_sub(spec_h(b, c, d)).wrapping_sub(ROUND3_CONST)
}

/// Conditional select combining function, used in round 1.
pub fn f(x: u32, y: u32, z: u32) -> (r: u32)
    ensures
        r == spec_f(x, y, z),
{
    (x & y) | (!x & z)
}

/// Majority combining function, used in round 2.
pub fn g(x: u32, y: u32, z: u32) -> (r: u32)
    ensures
        r == spec_g(x, y, z),
{
    (x & y) | (x & z) | (y & z)
}

/// Parity combining function, used in round 3.
pub fn h(x: u32, y: u32, z: u32) -> (r: u32)
    ensures
        r == spec_h(x, y, z),
{
    x ^ y ^ z
}

/// Left-rotate a 32-bit word by `s` places.
fn rotate_left(x: u32, s: u32) -> (r: u32)
    requires
        0 < s < 32,
    ensures
        r == rotl(x, s),
{
    (x << s) | (x >> (32 - s))
}

/// Right-rotate a 32-bit word by `s` places.
fn rotate_right(x: u32, s: u32) -> (r: u32)
    requires
        0 < s < 32,
    ensures
        r == rotr(x, s),
{
    (x >> s) | (x << (32 - s))
}

/// Forward step operator of round 1.
pub fn op1(a: u32, b: u32, c: u32, d: u32, m: u32, s: u32) -> (r: u32)
    requires
        0 < s < 32,
    ensures
        r == spec_op1(a, b, c, d, m, s),
{
    rotate_left(a.wrapping_add(f(b, c, d)).wrapping_add(m), s)
}

/// Forward step operator of round 2.
pub fn op2(a: u32, b: u32, c: u32, d: u32, m: u32, s: u32) -> (r: u32)
    requires
        0 < s < 32,
    ensures
        r == spec_op2(a, b, c, d, m, s),
{
    rotate_left(a.wrapping_add(g(b, c, d)).wrapping_add(m).wrapping_add(ROUND2_CONST), s)
}

/// Forward step operator of round 3.
pub fn op3(a: u32, b: u32, c: u32, d: u32, m: u32, s: u32) -> (r: u32)
    requires
        0 < s < 32,
    ensures
        r == spec_op3(a, b, c, d, m, s),
{
    rotate_left(a.wrapping_add(h(b, c, d)).wrapping_add(m).wrapping_add(ROUND3_CONST), s)
}

/// Inverse step operator of round 1: recovers the message word that
/// makes the round-1 update of registers `a, b, c, d` yield `v`.
pub fn op1_t(v: u32, s: u32, a: u32, b: u32, c: u32, d: u32) -> (r: u32)
    requires
        0 < s < 32,
    ensures
        r == spec_op1_t(v, s, a, b, c, d),
{
    rotate_right(v, s).wrapping_sub(a).wrapping_sub(f(b, c, d))
}

/// Inverse step operator of round 2: recovers the message word that
/// makes the round-2 update of registers `a, b, c, d` yield `v`.
pub fn op2_t(v: u32, s: u32, a: u32, b: u32, c: u32, d: u32) -> (r: u32)
    requires
        0 < s < 32,
    ensures
        r == spec_op2_t(v, s, a, b, c, d),
{
    rotate_right(v, s).wrapping_sub(a).wrapping_sub(g(b, c, d)).wrapping_sub(ROUND2_CONST)
}

/// Rotating right undoes rotating left by the same amount.
pub proof fn lemma_rotr_rotl(x: u32, s: u32)
    requires
        0 < s < 32,
    ensures
        rotr(rotl(x, s), s) == x,
{
    let y = rotl(x, s);
    assert(y == (x << s) | (x >> ((32 - s) as u32)));
    assert((((x << s) | (x >> ((32 - s) as u32))) >> s) | (((x << s) | (x >> ((32 - s) as u32)))
        << ((32 - s) as u32)) == x) by (bit_vector)
        requires
            0 < s < 32,
    ;
}

/// Rotating left undoes rotating right by the same amount.
pub proof fn lemma_rotl_rotr(x: u32, s: u32)
    requires
        0 < s < 32,
    ensures
        rotl(rotr(x, s), s) == x,
{
    let y = rotr(x, s);
    assert((((x >> s) | (x << ((32 - s) as u32))) << s) | (((x >> s) | (x << ((32 - s) as u32)))
        >> ((32 - s) as u32)) == x) by (bit_vector)
        requires
            0 < s < 32,
    ;
}

/// Wraparound subtraction of the same two terms undoes wraparound addition.
proof fn lemma_wrapping_cancel(a: u32, k: u32, m: u32)
    ensures
        a.wrapping_add(k).wrapping_add(m).wrapping_sub(a).wrapping_sub(k) == m,
{
    assert(a.wrapping_add(k).wrapping_add(m).wrapping_sub(a).wrapping_sub(k) == m) by (bit_vector);
}

/// Wraparound addition of the same two terms undoes wraparound subtraction.
proof fn lemma_wrapping_restore(a: u32, k: u32, v: u32)
    ensures
        a.wrapping_add(k).wrapping_add(v.wrapping_sub(a).wrapping_sub(k)) == v,
{
    assert(a.wrapping_add(k).wrapping_add(v.wrapping_sub(a).wrapping_sub(k)) == v) by (bit_vector);
}

/// Inverse law for round 1: the inverse operator recovers the message
/// word from the forward operator's output, for every 32-bit input.
pub proof fn lemma_op1_inverse(a: u32, b: u32, c: u32, d: u32, m: u32, s: u32)
    requires
        0 < s < 32,
    ensures
        spec_op1_t(spec_op1(a, b, c, d, m, s), s, a, b, c, d) == m,
{
    lemma_rotr_rotl(a.wrapping_add(spec_f(b, c, d)).wrapping_add(m), s);
    lemma_wrapping_cancel(a, spec_f(b, c, d), m);
}

/// Inverse law for round 2.
pub proof fn lemma_op2_inverse(a: u32, b: u32, c: u32, d: u32, m: u32, s: u32)
    requires
        0 < s < 32,
    ensures
        spec_op2_t(spec_op2(a, b, c, d, m, s), s, a, b, c, d) == m,
{
    let k = spec_g(b, c, d);
    lemma_rotr_rotl(a.wrapping_add(k).wrapping_add(m).wrapping_add(ROUND2_CONST), s);
    assert(a.wrapping_add(k).wrapping_add(m).wrapping_add(0x5A82_7999u32).wrapping_sub(
        a,
    ).wrapping_sub(k).wrapping_sub(0x5A82_7999u32) == m) by (bit_vector);
}

/// Inverse law for round 3.
pub proof fn lemma_op3_inverse(a: u32, b: u32, c: u32, d: u32, m: u32, s: u32)
    requires
        0 < s < 32,
    ensures
        spec_op3_t(spec_op3(a, b, c, d, m, s), s, a, b, c, d) == m,
{
    let k = spec_h(b, c, d);
    lemma_rotr_rotl(a.wrapping_add(k).wrapping_add(m).wrapping_add(ROUND3_CONST), s);
    assert(a.wrapping_add(k).wrapping_add(m).wrapping_add(0x6ED9_EBA1u32).wrapping_sub(
        a,
    ).wrapping_sub(k).wrapping_sub(0x6ED9_EBA1u32) == m) by (bit_vector);
}

/// The forward operator of round 1 reproduces the register value the
/// inverse operator was solved for.
pub proof fn lemma_op1_reproduce(v: u32, s: u32, a: u32, b: u32, c: u32, d: u32)
    requires
        0 < s < 32,
    ensures
        spec_op1(a, b, c, d, spec_op1_t(v, s, a, b, c, d), s) == v,
{
    lemma_wrapping_restore(a, spec_f(b, c, d), rotr(v, s));
    lemma_rotl_rotr(v, s);
}

/// The forward operator of round 2 reproduces the register value the
/// inverse operator was solved for.
pub proof fn lemma_op2_reproduce(v: u32, s: u32, a: u32, b: u32, c: u32, d: u32)
    requires
        0 < s < 32,
    ensures
        spec_op2(a, b, c, d, spec_op2_t(v, s, a, b, c, d), s) == v,
{
    let k = spec_g(b, c, d);
    let w = rotr(v, s);
    assert(a.wrapping_add(k).wrapping_add(
        w.wrapping_sub(a).wrapping_sub(k).wrapping_sub(0x5A82_7999u32),
    ).wrapping_add(0x5A82_7999u32) == w) by (bit_vector);
    lemma_rotl_rotr(v, s);
}

} // verus!
