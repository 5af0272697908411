//! Search for a pair of 64-byte blocks that compress to the same state.
//!
//! Each trial draws a random 16-word message, then deterministically
//! corrects it: every round-1 step forces a fixed set of register bits
//! (single-step modification), and two round-2 corrections force bits
//! of a5 and d5, back-propagating the changed early message words
//! through the already-fixed round-1 chain. The sibling block differs
//! from the corrected block by fixed word deltas; whether the pair
//! actually collides is checked by compressing both, and the caller
//! retries until it does.
//!
//! A bit-condition set for one step is held as three masks: bits copied
//! from a reference register, bits forced to zero, bits forced to one.

use crate::ops::{
    lemma_op1_reproduce, op1, op1_t, op2, op2_t, spec_op1, spec_op1_t, spec_op2, spec_op2_t,
};
use crate::state::{block_words, round1_reg, spec_compress, MD4State};
use vstd::bytes::{lemma_auto_spec_u32_to_from_le_bytes, spec_u32_to_le_bytes, u32_to_le_bytes};
use vstd::prelude::*;

verus! {

/// Relies on rand::random: draws one value of the implied type from
/// the thread-local generator; nothing is assumed about which value
/// comes back.
pub assume_specification<T>[ rand::random::<T> ]() -> (r: T)
    where
        rand::distributions::Standard: rand::distributions::Distribution<T>,
;

/// Forces bits of `v`: bits in `em` are copied from the reference word
/// `r`, bits in `zm` are cleared, bits in `om` are set. The three masks
/// of one condition set are disjoint, so the order of the three
/// operations does not matter.
pub open spec fn adjust(v: u32, r: u32, em: u32, zm: u32, om: u32) -> u32 {
    ((v ^ ((v ^ r) & em)) & !zm) | om
}

/// The bit-condition masks (equal-to-reference, zero, one) of each
/// round-1 step; the reference register of a round-1 step is the
/// step's third operand. Bits listed low to high per mask.
pub open spec fn spec_round1_masks(step: int) -> (u32, u32, u32) {
    if step == 0 {  // a1: equal 6
        (0x0000_0040u32, 0x0000_0000u32, 0x0000_0000u32)
    } else if step == 1 {  // d1: equal 7, 10; zero 6
        (0x0000_0480u32, 0x0000_0040u32, 0x0000_0000u32)
    } else if step == 2 {  // c1: equal 25; zero 10; one 6, 7
        (0x0200_0000u32, 0x0000_0400u32, 0x0000_00C0u32)
    } else if step == 3 {  // b1: zero 7, 10, 25; one 6
        (0x0000_0000u32, 0x0200_0480u32, 0x0000_0040u32)
    } else if step == 4 {  // a2: equal 13; zero 25; one 7, 10
        (0x0000_2000u32, 0x0200_0000u32, 0x0000_0480u32)
    } else if step == 5 {  // d2: equal 18..21; zero 13; one 25
        (0x003C_0000u32, 0x0000_2000u32, 0x0200_0000u32)
    } else if step == 6 {  // c2: equal 12, 14; zero 13, 18, 19, 21; one 20
        (0x0000_5000u32, 0x002C_2000u32, 0x0010_0000u32)
    } else if step == 7 {  // b2: equal 16; zero 14, 18..21; one 12, 13
        (0x0001_0000u32, 0x003C_4000u32, 0x0000_3000u32)
    } else if step == 8 {  // a3: equal 22, 25; zero 16, 18..20; one 12..14, 21
        (0x0240_0000u32, 0x001D_0000u32, 0x0020_7000u32)
    } else if step == 9 {  // d3: equal 29; zero 16, 19, 22; one 12..14, 20, 21, 25
        (0x2000_0000u32, 0x0049_0000u32, 0x0230_7000u32)
    } else if step == 10 {  // c3: equal 31; zero 19..22, 25; one 16, 29
        (0x8000_0000u32, 0x0278_0000u32, 0x2001_0000u32)
    } else if step == 11 {  // b3: equal 22; zero 19, 29, 31; one 20, 21, 25
        (0x0040_0000u32, 0xA008_0000u32, 0x0230_0000u32)
    } else if step == 12 {  // a4: equal 26, 28; zero 22, 25, 31; one 29
        (0x1400_0000u32, 0x8240_0000u32, 0x2000_0000u32)
    } else if step == 13 {  // d4: zero 22, 25, 29; one 26, 28, 31
        (0x0000_0000u32, 0x2240_0000u32, 0x9400_0000u32)
    } else if step == 14 {  // c4: equal 18; zero 26, 28, 29; one 22, 25
        (0x0004_0000u32, 0x3400_0000u32, 0x0240_0000u32)
    } else {  // b4: equal 25, 31; zero 18, 29; one 26, 28
        (0x8200_0000u32, 0x2004_0000u32, 0x1400_0000u32)
    }
}

/// Equal-to-reference mask of the a5 correction (reference is the
/// register two schedule positions earlier, position 2): bit 18.
pub const A5_EQUAL_MASK: u32 = 0x0004_0000;

/// Zero mask of the a5 correction: bit 26.
pub const A5_ZERO_MASK: u32 = 0x0400_0000;

/// One mask of the a5 correction: bits 25, 28, 31.
pub const A5_ONE_MASK: u32 = 0x9200_0000;

/// Equal-to-reference mask of the d5 correction against position 0: bit 18.
pub const D5_EQUAL0_MASK: u32 = 0x0004_0000;

/// Equal-to-reference mask of the d5 correction against position 1:
/// bits 25, 26, 28, 31.
pub const D5_EQUAL1_MASK: u32 = 0x9600_0000;

/// The corrected register value of one round-1 step: the natural step
/// output with that step's bit conditions forced, the reference being
/// the step's third operand.
pub open spec fn r1_step_value(st: Seq<u32>, m: u32, step: int, s: int, shift: u32) -> u32 {
    let v0 = spec_op1(st[s], st[(s + 1) % 4], st[(s + 2) % 4], st[(s + 3) % 4], m, shift);
    let (em, zm, om) = spec_round1_masks(step);
    adjust(v0, st[(s + 1) % 4], em, zm, om)
}

/// The corrected a5 value computed from the post-round-1 registers and
/// the current first message word.
pub open spec fn a5_value(st: Seq<u32>, m0: u32) -> u32 {
    adjust(spec_op2(st[0], st[1], st[2], st[3], m0, 3), st[2], A5_EQUAL_MASK, A5_ZERO_MASK, A5_ONE_MASK)
}

/// The message words after the a5 correction: m0 is re-solved from the
/// corrected a5, and m1..m4 are re-solved so that the round-1 registers
/// d1, c1, b1, a2 keep their values over the new a1.
pub open spec fn a5_data(iv: Seq<u32>, st: Seq<u32>, d: Seq<u32>) -> Seq<u32> {
    let a5 = a5_value(st, d[0]);
    let m0 = spec_op2_t(a5, 3, st[0], st[1], st[2], st[3]);
    let d1 = round1_reg(iv, d, 1);
    let c1 = round1_reg(iv, d, 2);
    let b1 = round1_reg(iv, d, 3);
    let a2 = round1_reg(iv, d, 4);
    let a1n = spec_op1(iv[0], iv[1], iv[2], iv[3], m0, 3);
    d.update(0, m0).update(1, spec_op1_t(d1, 7, iv[3], a1n, iv[1], iv[2])).update(
        2,
        spec_op1_t(c1, 11, iv[2], d1, a1n, iv[1]),
    ).update(3, spec_op1_t(b1, 19, iv[1], c1, d1, a1n)).update(
        4,
        spec_op1_t(a2, 3, a1n, b1, c1, d1),
    )
}

/// The corrected d5 value computed from the current registers and the
/// current fifth message word.
pub open spec fn d5_value(st: Seq<u32>, m4: u32) -> u32 {
    let v = spec_op2(st[3], st[0], st[1], st[2], m4, 5);
    adjust(adjust(v, st[0], D5_EQUAL0_MASK, 0, 0), st[1], D5_EQUAL1_MASK, 0, 0)
}

/// The message words after the d5 correction: m4 is re-solved from the
/// corrected d5, and m5..m8 are re-solved so that the round-1 registers
/// d2, c2, b2, a3 keep their values over the new a2.
pub open spec fn d5_data(iv: Seq<u32>, st: Seq<u32>, d: Seq<u32>) -> Seq<u32> {
    let d5 = d5_value(st, d[4]);
    let m4 = spec_op2_t(d5, 5, st[3], st[0], st[1], st[2]);
    let d1 = round1_reg(iv, d, 1);
    let c1 = round1_reg(iv, d, 2);
    let b1 = round1_reg(iv, d, 3);
    let d2 = round1_reg(iv, d, 5);
    let c2 = round1_reg(iv, d, 6);
    let b2 = round1_reg(iv, d, 7);
    let a3 = round1_reg(iv, d, 8);
    let a2n = spec_op1(round1_reg(iv, d, 0), b1, c1, d1, m4, 3);
    d.update(4, m4).update(5, spec_op1_t(d2, 7, d1, a2n, b1, c1)).update(
        6,
        spec_op1_t(c2, 11, c1, d2, a2n, b1),
    ).update(7, spec_op1_t(b2, 19, b1, c2, d2, a2n)).update(
        8,
        spec_op1_t(a3, 3, a2n, b2, c2, d2),
    )
}

/// The re-solved first message word reproduces the corrected a5
/// exactly: feeding it back through the round-2 step yields the value
/// the bit corrections chose.
pub proof fn lemma_a5_reproduced(iv: Seq<u32>, st: Seq<u32>, d: Seq<u32>)
    requires
        d.len() == 16,
    ensures
        spec_op2(st[0], st[1], st[2], st[3], a5_data(iv, st, d)[0], 3) == a5_value(st, d[0]),
{
    crate::ops::lemma_op2_reproduce(a5_value(st, d[0]), 3, st[0], st[1], st[2], st[3]);
}

/// The re-solved fifth message word reproduces the corrected d5
/// exactly.
pub proof fn lemma_d5_reproduced(iv: Seq<u32>, st: Seq<u32>, d: Seq<u32>)
    requires
        d.len() == 16,
    ensures
        spec_op2(st[3], st[0], st[1], st[2], d5_data(iv, st, d)[4], 5) == d5_value(st, d[4]),
{
    crate::ops::lemma_op2_reproduce(d5_value(st, d[4]), 5, st[3], st[0], st[1], st[2]);
}

/// The a5 correction never disturbs the rest of the round-1 chain:
/// although it rewrites message words m0..m4, the re-solved words
/// reproduce the old register values d1, c1, b1 and a2 over the new
/// a1, so every round-1 register after a1 is exactly what it was.
pub proof fn lemma_a5_data_preserves_chain(iv: Seq<u32>, st: Seq<u32>, d: Seq<u32>)
    requires
        d.len() == 16,
    ensures
        forall|j: int|
            1 <= j < 16 ==> round1_reg(iv, a5_data(iv, st, d), j) == round1_reg(iv, d, j),
{
    let dn = a5_data(iv, st, d);
    let a5 = a5_value(st, d[0]);
    let m0 = spec_op2_t(a5, 3, st[0], st[1], st[2], st[3]);
    let a1n = spec_op1(iv[0], iv[1], iv[2], iv[3], m0, 3);
    let d1 = round1_reg(iv, d, 1);
    let c1 = round1_reg(iv, d, 2);
    let b1 = round1_reg(iv, d, 3);
    let a2 = round1_reg(iv, d, 4);

    assert(round1_reg(iv, dn, -4) == iv[0] && round1_reg(iv, d, -4) == iv[0]);
    assert(round1_reg(iv, dn, -3) == iv[3] && round1_reg(iv, d, -3) == iv[3]);
    assert(round1_reg(iv, dn, -2) == iv[2] && round1_reg(iv, d, -2) == iv[2]);
    assert(round1_reg(iv, dn, -1) == iv[1] && round1_reg(iv, d, -1) == iv[1]);

    assert(dn[0] == m0);
    assert(dn[1] == spec_op1_t(d1, 7, iv[3], a1n, iv[1], iv[2]));
    assert(dn[2] == spec_op1_t(c1, 11, iv[2], d1, a1n, iv[1]));
    assert(dn[3] == spec_op1_t(b1, 19, iv[1], c1, d1, a1n));
    assert(dn[4] == spec_op1_t(a2, 3, a1n, b1, c1, d1));
    assert(forall|j: int| 5 <= j < 16 ==> dn[j] == d[j]);

    assert(round1_reg(iv, dn, 0) == a1n);
    lemma_op1_reproduce(d1, 7, iv[3], a1n, iv[1], iv[2]);
    assert(round1_reg(iv, dn, 1) == d1);
    lemma_op1_reproduce(c1, 11, iv[2], d1, a1n, iv[1]);
    assert(round1_reg(iv, dn, 2) == c1);
    lemma_op1_reproduce(b1, 19, iv[1], c1, d1, a1n);
    assert(round1_reg(iv, dn, 3) == b1);
    lemma_op1_reproduce(a2, 3, a1n, b1, c1, d1);
    assert(round1_reg(iv, dn, 4) == a2);

    assert(round1_reg(iv, dn, 5) == round1_reg(iv, d, 5));
    assert(round1_reg(iv, dn, 6) == round1_reg(iv, d, 6));
    assert(round1_reg(iv, dn, 7) == round1_reg(iv, d, 7));
    assert(round1_reg(iv, dn, 8) == round1_reg(iv, d, 8));
    assert(round1_reg(iv, dn, 9) == round1_reg(iv, d, 9));
    assert(round1_reg(iv, dn, 10) == round1_reg(iv, d, 10));
    assert(round1_reg(iv, dn, 11) == round1_reg(iv, d, 11));
    assert(round1_reg(iv, dn, 12) == round1_reg(iv, d, 12));
    assert(round1_reg(iv, dn, 13) == round1_reg(iv, d, 13));
    assert(round1_reg(iv, dn, 14) == round1_reg(iv, d, 14));
    assert(round1_reg(iv, dn, 15) == round1_reg(iv, d, 15));
}

/// The d5 correction rewrites message words m4..m8 and with them the
/// register a2 (position 4 of the chain); every other round-1 register
/// keeps its value, because m5..m8 are re-solved to reproduce d2, c2,
/// b2 and a3 over the new a2.
pub proof fn lemma_d5_data_preserves_chain(iv: Seq<u32>, st: Seq<u32>, d: Seq<u32>)
    requires
        d.len() == 16,
    ensures
        forall|j: int|
            0 <= j < 16 && j != 4 ==> round1_reg(iv, d5_data(iv, st, d), j) == round1_reg(
                iv,
                d,
                j,
            ),
{
    let dn = d5_data(iv, st, d);
    let d5 = d5_value(st, d[4]);
    let m4 = spec_op2_t(d5, 5, st[3], st[0], st[1], st[2]);
    let a1 = round1_reg(iv, d, 0);
    let d1 = round1_reg(iv, d, 1);
    let c1 = round1_reg(iv, d, 2);
    let b1 = round1_reg(iv, d, 3);
    let d2 = round1_reg(iv, d, 5);
    let c2 = round1_reg(iv, d, 6);
    let b2 = round1_reg(iv, d, 7);
    let a3 = round1_reg(iv, d, 8);
    let a2n = spec_op1(a1, b1, c1, d1, m4, 3);

    assert(round1_reg(iv, dn, -4) == iv[0] && round1_reg(iv, d, -4) == iv[0]);
    assert(round1_reg(iv, dn, -3) == iv[3] && round1_reg(iv, d, -3) == iv[3]);
    assert(round1_reg(iv, dn, -2) == iv[2] && round1_reg(iv, d, -2) == iv[2]);
    assert(round1_reg(iv, dn, -1) == iv[1] && round1_reg(iv, d, -1) == iv[1]);

    assert(dn[0] == d[0] && dn[1] == d[1] && dn[2] == d[2] && dn[3] == d[3]);
    assert(dn[4] == m4);
    assert(dn[5] == spec_op1_t(d2, 7, d1, a2n, b1, c1));
    assert(dn[6] == spec_op1_t(c2, 11, c1, d2, a2n, b1));
    assert(dn[7] == spec_op1_t(b2, 19, b1, c2, d2, a2n));
    assert(dn[8] == spec_op1_t(a3, 3, a2n, b2, c2, d2));
    assert(forall|j: int| 9 <= j < 16 ==> dn[j] == d[j]);

    assert(round1_reg(iv, dn, 0) == a1);
    assert(round1_reg(iv, dn, 1) == d1);
    assert(round1_reg(iv, dn, 2) == c1);
    assert(round1_reg(iv, dn, 3) == b1);
    assert(round1_reg(iv, dn, 4) == a2n);
    lemma_op1_reproduce(d2, 7, d1, a2n, b1, c1);
    assert(round1_reg(iv, dn, 5) == d2);
    lemma_op1_reproduce(c2, 11, c1, d2, a2n, b1);
    assert(round1_reg(iv, dn, 6) == c2);
    lemma_op1_reproduce(b2, 19, b1, c2, d2, a2n);
    assert(round1_reg(iv, dn, 7) == b2);
    lemma_op1_reproduce(a3, 3, a2n, b2, c2, d2);
    assert(round1_reg(iv, dn, 8) == a3);

    assert(round1_reg(iv, dn, 9) == round1_reg(iv, d, 9));
    assert(round1_reg(iv, dn, 10) == round1_reg(iv, d, 10));
    assert(round1_reg(iv, dn, 11) == round1_reg(iv, d, 11));
    assert(round1_reg(iv, dn, 12) == round1_reg(iv, d, 12));
    assert(round1_reg(iv, dn, 13) == round1_reg(iv, d, 13));
    assert(round1_reg(iv, dn, 14) == round1_reg(iv, d, 14));
    assert(round1_reg(iv, dn, 15) == round1_reg(iv, d, 15));
}

/// The fixed word deltas between a corrected block and its sibling:
/// word 1 gains 2^31, word 2 gains 2^31 - 2^28, word 12 loses 2^16,
/// all other words are identical.
pub open spec fn differential(w1: Seq<u32>, w2: Seq<u32>) -> bool {
    &&& w1.len() == 16
    &&& w2.len() == 16
    &&& w2[1] == w1[1].wrapping_add(0x8000_0000)
    &&& w2[2] == w1[2].wrapping_add(0x8000_0000).wrapping_sub(0x1000_0000)
    &&& w2[12] == w1[12].wrapping_sub(0x1_0000)
    &&& forall|j: int| 0 <= j < 16 && j != 1 && j != 2 && j != 12 ==> w2[j] == w1[j]
}

/// After `adjust` with pairwise disjoint masks, every zero-mask bit is
/// clear, every one-mask bit is set, every equal-mask bit agrees with
/// the reference, and all other bits keep their value.
proof fn lemma_adjust_forces_bits(v: u32, r: u32, em: u32, zm: u32, om: u32)
    requires
        em & zm == 0,
        em & om == 0,
        zm & om == 0,
    ensures
        adjust(v, r, em, zm, om) & zm == 0,
        adjust(v, r, em, zm, om) & om == om,
        adjust(v, r, em, zm, om) & em == r & em,
        adjust(v, r, em, zm, om) & !(em | zm | om) == v & !(em | zm | om),
{
    assert((((v ^ ((v ^ r) & em)) & !zm) | om) & zm == 0 && (((v ^ ((v ^ r) & em)) & !zm) | om)
        & om == om && (((v ^ ((v ^ r) & em)) & !zm) | om) & em == r & em && (((v ^ ((v ^ r) & em))
        & !zm) | om) & !(em | zm | om) == v & !(em | zm | om)) by (bit_vector)
        requires
            em & zm == 0,
            em & om == 0,
            zm & om == 0,
    ;
}

/// The three masks of every round-1 condition set are pairwise
/// disjoint: no bit is forced two ways.
proof fn lemma_round1_masks_disjoint(step: int)
    ensures
        ({
            let (em, zm, om) = spec_round1_masks(step);
            em & zm == 0 && em & om == 0 && zm & om == 0
        }),
{
    let (em, zm, om) = spec_round1_masks(step);
    assert(em & zm == 0 && em & om == 0 && zm & om == 0) by (bit_vector)
        requires
            (em == 0x0000_0040u32 && zm == 0x0000_0000u32 && om == 0x0000_0000u32) || (em
                == 0x0000_0480u32 && zm == 0x0000_0040u32 && om == 0x0000_0000u32) || (em
                == 0x0200_0000u32 && zm == 0x0000_0400u32 && om == 0x0000_00C0u32) || (em
                == 0x0000_0000u32 && zm == 0x0200_0480u32 && om == 0x0000_0040u32) || (em
                == 0x0000_2000u32 && zm == 0x0200_0000u32 && om == 0x0000_0480u32) || (em
                == 0x003C_0000u32 && zm == 0x0000_2000u32 && om == 0x0200_0000u32) || (em
                == 0x0000_5000u32 && zm == 0x002C_2000u32 && om == 0x0010_0000u32) || (em
                == 0x0001_0000u32 && zm == 0x003C_4000u32 && om == 0x0000_3000u32) || (em
                == 0x0240_0000u32 && zm == 0x001D_0000u32 && om == 0x0020_7000u32) || (em
                == 0x2000_0000u32 && zm == 0x0049_0000u32 && om == 0x0230_7000u32) || (em
                == 0x8000_0000u32 && zm == 0x0278_0000u32 && om == 0x2001_0000u32) || (em
                == 0x0040_0000u32 && zm == 0xA008_0000u32 && om == 0x0230_0000u32) || (em
                == 0x1400_0000u32 && zm == 0x8240_0000u32 && om == 0x2000_0000u32) || (em
                == 0x0000_0000u32 && zm == 0x2240_0000u32 && om == 0x9400_0000u32) || (em
                == 0x0004_0000u32 && zm == 0x3400_0000u32 && om == 0x0240_0000u32) || (em
                == 0x8200_0000u32 && zm == 0x2004_0000u32 && om == 0x1400_0000u32),
    ;
}

/// Forces bits of a word as one condition set asks.
fn adjust_word(v: u32, r: u32, em: u32, zm: u32, om: u32) -> (out: u32)
    ensures
        out == adjust(v, r, em, zm, om),
{
    ((v ^ ((v ^ r) & em)) & !zm) | om
}

/// The bit-condition masks of one round-1 step.
fn round1_masks(step: usize) -> (r: (u32, u32, u32))
    requires
        step < 16,
    ensures
        r == spec_round1_masks(step as int),
{
    match step {
        0 => (0x0000_0040, 0x0000_0000, 0x0000_0000),
        1 => (0x0000_0480, 0x0000_0040, 0x0000_0000),
        2 => (0x0200_0000, 0x0000_0400, 0x0000_00C0),
        3 => (0x0000_0000, 0x0200_0480, 0x0000_0040),
        4 => (0x0000_2000, 0x0200_0000, 0x0000_0480),
        5 => (0x003C_0000, 0x0000_2000, 0x0200_0000),
        6 => (0x0000_5000, 0x002C_2000, 0x0010_0000),
        7 => (0x0001_0000, 0x003C_4000, 0x0000_3000),
        8 => (0x0240_0000, 0x001D_0000, 0x0020_7000),
        9 => (0x2000_0000, 0x0049_0000, 0x0230_7000),
        10 => (0x8000_0000, 0x0278_0000, 0x2001_0000),
        11 => (0x0040_0000, 0xA008_0000, 0x0230_0000),
        12 => (0x1400_0000, 0x8240_0000, 0x2000_0000),
        13 => (0x0000_0000, 0x2240_0000, 0x9400_0000),
        14 => (0x0004_0000, 0x3400_0000, 0x0240_0000),
        _ => (0x8200_0000, 0x2004_0000, 0x1400_0000),
    }
}

/// Writes 16 words as 64 little-endian bytes.
fn serialize_words(data: &Vec<u32>) -> (out: Vec<u8>)
    requires
        data@.len() == 16,
    ensures
        out@.len() == 64,
        block_words(out@) == data@,
{
    let mut out: Vec<u8> = Vec::new();
    let mut i: usize = 0;
    while i < 16
        invariant
            data@.len() == 16,
            i <= 16,
            out@.len() == 4 * i,
            forall|j: int|
                0 <= j < i ==> out@.subrange(4 * j, 4 * j + 4) == spec_u32_to_le_bytes(data@[j]),
        decreases 16 - i,
    {
        let ghost prev = out@;
        let mut bs = u32_to_le_bytes(data[i]);
        out.append(&mut bs);
        proof {
            assert forall|j: int| 0 <= j < i + 1 implies out@.subrange(4 * j, 4 * j + 4)
                == spec_u32_to_le_bytes(data@[j]) by {
                if j < i {
                    assert(out@.subrange(4 * j, 4 * j + 4) =~= prev.subrange(4 * j, 4 * j + 4));
                } else {
                    assert(out@.subrange(4 * j, 4 * j + 4) =~= spec_u32_to_le_bytes(data@[j]));
                }
            }
        }
        i += 1;
    }
    proof {
        lemma_auto_spec_u32_to_from_le_bytes();
        assert(block_words(out@) =~= data@);
    }
    out
}

/// Searches for two blocks that compress to the same state from a
/// fixed starting state.
pub struct CollisionFinder {
    init: MD4State,
    state: MD4State,
    data: Vec<u32>,
}

impl CollisionFinder {
    /// The starting chaining state the search is anchored to.
    pub closed spec fn init_view(self) -> Seq<u32> {
        self.init@
    }

    /// The candidate message always holds 16 words.
    pub closed spec fn wf(self) -> bool {
        self.data@.len() == 16
    }

    /// A finder anchored to the given chaining state.
    pub fn from(state: MD4State) -> (r: CollisionFinder)
        ensures
            r.wf(),
            r.init_view() == state@,
    {
        let mut data: Vec<u32> = Vec::new();
        let mut i: usize = 0;
        while i < 16
            invariant
                data@.len() == i as int,
                i <= 16,
            decreases 16 - i,
        {
            data.push(0);
            i += 1;
        }
        CollisionFinder { init: state, state: MD4State::new(), data }
    }

    /// One round-1 single-step modification: computes the step's
    /// natural output, forces the step's bit conditions, re-solves the
    /// step's message word so the corrected register value is exactly
    /// reproduced, and writes both back.
    fn first_round_single_step(&mut self, step: usize, s: usize, shift: u32)
        requires
            old(self).wf(),
            step < 16,
            s < 4,
            0 < shift < 32,
        ensures
            final(self).wf(),
            final(self).init == old(self).init,
            final(self).state.s@ == old(self).state.s@.update(
                s as int,
                r1_step_value(old(self).state.s@, old(self).data@[step as int], step as int, s as int, shift),
            ),
            final(self).data@ == old(self).data@.update(
                step as int,
                spec_op1_t(
                    r1_step_value(old(self).state.s@, old(self).data@[step as int], step as int, s as int, shift),
                    shift,
                    old(self).state.s@[s as int],
                    old(self).state.s@[((s + 1) % 4) as int],
                    old(self).state.s@[((s + 2) % 4) as int],
                    old(self).state.s@[((s + 3) % 4) as int],
                ),
            ),
            ({
                let (em, zm, om) = spec_round1_masks(step as int);
                let v = r1_step_value(
                    old(self).state.s@,
                    old(self).data@[step as int],
                    step as int,
                    s as int,
                    shift,
                );
                let w = old(self).state.s@[((s + 1) % 4) as int];
                v & zm == 0 && v & om == om && v & em == w & em
            }),
    {
        let v0 = op1(
            self.state.s[s % 4],
            self.state.s[(s + 1) % 4],
            self.state.s[(s + 2) % 4],
            self.state.s[(s + 3) % 4],
            self.data[step],
            shift,
        );

        let (em, zm, om) = round1_masks(step);
        let v = adjust_word(v0, self.state.s[(s + 1) % 4], em, zm, om);
        proof {
            lemma_round1_masks_disjoint(step as int);
            lemma_adjust_forces_bits(v0, self.state.s@[((s + 1) % 4) as int], em, zm, om);
        }

        let m = op1_t(
            v,
            shift,
            self.state.s[s % 4],
            self.state.s[(s + 1) % 4],
            self.state.s[(s + 2) % 4],
            self.state.s[(s + 3) % 4],
        );

        self.data[step] = m;
        self.state.s[s % 4] = v;
    }

    /// The round-2 a5 correction: forces the a5 bit conditions,
    /// re-solves m0, and re-solves m1..m4 against the recomputed a1 so
    /// the round-1 registers d1, c1, b1, a2 keep their values.
    fn second_round_a5(&mut self)
        requires
            old(self).wf(),
        ensures
            final(self).wf(),
            final(self).init == old(self).init,
            final(self).state.s@ == old(self).state.s@.update(
                0,
                a5_value(old(self).state.s@, old(self).data@[0]),
            ),
            final(self).data@ == a5_data(old(self).init@, old(self).state.s@, old(self).data@),
            ({
                let v = a5_value(old(self).state.s@, old(self).data@[0]);
                &&& v & A5_ZERO_MASK == 0
                &&& v & A5_ONE_MASK == A5_ONE_MASK
                &&& v & A5_EQUAL_MASK == old(self).state.s@[2] & A5_EQUAL_MASK
            }),
    {
        let ghost iv = self.init@;
        let ghost st = self.state.s@;
        let ghost d = self.data@;

        let a5v = op2(self.state.s[0], self.state.s[1], self.state.s[2], self.state.s[3], self.data[0], 3);
        let a5 = adjust_word(a5v, self.state.s[2], A5_EQUAL_MASK, A5_ZERO_MASK, A5_ONE_MASK);
        proof {
            assert(0x0004_0000u32 & 0x0400_0000u32 == 0 && 0x0004_0000u32 & 0x9200_0000u32 == 0
                && 0x0400_0000u32 & 0x9200_0000u32 == 0) by (bit_vector);
            lemma_adjust_forces_bits(a5v, self.state.s@[2], A5_EQUAL_MASK, A5_ZERO_MASK, A5_ONE_MASK);
        }

        let m0 = op2_t(a5, 3, self.state.s[0], self.state.s[1], self.state.s[2], self.state.s[3]);

        // The round-1 chain the current words produce.
        let a0 = self.init.s[0];
        let b0 = self.init.s[1];
        let c0 = self.init.s[2];
        let d0 = self.init.s[3];
        let a1 = op1(a0, b0, c0, d0, self.data[0], 3);
        let d1 = op1(d0, a1, b0, c0, self.data[1], 7);
        let c1 = op1(c0, d1, a1, b0, self.data[2], 11);
        let b1 = op1(b0, c1, d1, a1, self.data[3], 19);
        let a2 = op1(a1, b1, c1, d1, self.data[4], 3);
        proof {
            assert(round1_reg(iv, d, -4) == iv[0]);
            assert(round1_reg(iv, d, -3) == iv[3]);
            assert(round1_reg(iv, d, -2) == iv[2]);
            assert(round1_reg(iv, d, -1) == iv[1]);
            assert(a1 == round1_reg(iv, d, 0));
            assert(d1 == round1_reg(iv, d, 1));
            assert(c1 == round1_reg(iv, d, 2));
            assert(b1 == round1_reg(iv, d, 3));
            assert(a2 == round1_reg(iv, d, 4));
        }

        // The same chain with the new first word.
        let a1n = op1(a0, b0, c0, d0, m0, 3);

        self.data[0] = m0;
        self.data[1] = op1_t(d1, 7, d0, a1n, b0, c0);
        self.data[2] = op1_t(c1, 11, c0, d1, a1n, b0);
        self.data[3] = op1_t(b1, 19, b0, c1, d1, a1n);
        self.data[4] = op1_t(a2, 3, a1n, b1, c1, d1);

        self.state.s[0] = a5;

        proof {
            assert(self.data@ =~= a5_data(iv, st, d));
        }
    }

    /// The round-2 d5 correction: forces the d5 bit conditions,
    /// re-solves m4, and re-solves m5..m8 against the recomputed a2 so
    /// the round-1 registers d2, c2, b2, a3 keep their values.
    fn second_round_d5(&mut self)
        requires
            old(self).wf(),
        ensures
            final(self).wf(),
            final(self).init == old(self).init,
            final(self).state.s@ == old(self).state.s@.update(
                3,
                d5_value(old(self).state.s@, old(self).data@[4]),
            ),
            final(self).data@ == d5_data(old(self).init@, old(self).state.s@, old(self).data@),
            ({
                let v = d5_value(old(self).state.s@, old(self).data@[4]);
                &&& v & D5_EQUAL0_MASK == old(self).state.s@[0] & D5_EQUAL0_MASK
                &&& v & D5_EQUAL1_MASK == old(self).state.s@[1] & D5_EQUAL1_MASK
            }),
    {
        let ghost iv = self.init@;
        let ghost st = self.state.s@;
        let ghost d = self.data@;

        let d5v = op2(self.state.s[3], self.state.s[0], self.state.s[1], self.state.s[2], self.data[4], 5);
        let d5a = adjust_word(d5v, self.state.s[0], D5_EQUAL0_MASK, 0, 0);
        let d5 = adjust_word(d5a, self.state.s[1], D5_EQUAL1_MASK, 0, 0);
        proof {
            assert(0x0004_0000u32 & 0u32 == 0 && 0x9600_0000u32 & 0u32 == 0 && 0u32 & 0u32 == 0
                && 0x0004_0000u32 & !(0x9600_0000u32 | 0u32 | 0u32) == 0x0004_0000u32)
                by (bit_vector);
            lemma_adjust_forces_bits(d5v, self.state.s@[0], D5_EQUAL0_MASK, 0, 0);
            lemma_adjust_forces_bits(d5a, self.state.s@[1], D5_EQUAL1_MASK, 0, 0);
            assert(d5 & D5_EQUAL0_MASK == d5a & D5_EQUAL0_MASK) by (bit_vector)
                requires
                    d5 & !(0x9600_0000u32 | 0u32 | 0u32) == d5a & !(0x9600_0000u32 | 0u32 | 0u32),
            ;
        }

        let m4 = op2_t(d5, 5, self.state.s[3], self.state.s[0], self.state.s[1], self.state.s[2]);

        // The round-1 chain the current words produce.
        let a0 = self.init.s[0];
        let b0 = self.init.s[1];
        let c0 = self.init.s[2];
        let d0 = self.init.s[3];
        let a1 = op1(a0, b0, c0, d0, self.data[0], 3);
        let d1 = op1(d0, a1, b0, c0, self.data[1], 7);
        let c1 = op1(c0, d1, a1, b0, self.data[2], 11);
        let b1 = op1(b0, c1, d1, a1, self.data[3], 19);
        let a2 = op1(a1, b1, c1, d1, self.data[4], 3);
        let d2 = op1(d1, a2, b1, c1, self.data[5], 7);
        let c2 = op1(c1, d2, a2, b1, self.data[6], 11);
        let b2 = op1(b1, c2, d2, a2, self.data[7], 19);
        let a3 = op1(a2, b2, c2, d2, self.data[8], 3);
        proof {
            assert(round1_reg(iv, d, -4) == iv[0]);
            assert(round1_reg(iv, d, -3) == iv[3]);
            assert(round1_reg(iv, d, -2) == iv[2]);
            assert(round1_reg(iv, d, -1) == iv[1]);
            assert(a1 == round1_reg(iv, d, 0));
            assert(d1 == round1_reg(iv, d, 1));
            assert(c1 == round1_reg(iv, d, 2));
            assert(b1 == round1_reg(iv, d, 3));
            assert(a2 == round1_reg(iv, d, 4));
            assert(d2 == round1_reg(iv, d, 5));
            assert(c2 == round1_reg(iv, d, 6));
            assert(b2 == round1_reg(iv, d, 7));
            assert(a3 == round1_reg(iv, d, 8));
        }

        // The same chain with the new fifth word.
        let a2n = op1(a1, b1, c1, d1, m4, 3);

        self.data[4] = m4;
        self.data[5] = op1_t(d2, 7, d1, a2n, b1, c1);
        self.data[6] = op1_t(c2, 11, c1, d2, a2n, b1);
        self.data[7] = op1_t(b2, 19, b1, c2, d2, a2n);
        self.data[8] = op1_t(a3, 3, a2n, b2, c2, d2);

        self.state.s[3] = d5;

        proof {
            assert(self.data@ =~= d5_data(iv, st, d));
        }
    }

    /// One trial: draws a fresh random message, applies the round-1 and
    /// round-2 corrections, builds the sibling block with the fixed
    /// word deltas, and keeps the pair only if both blocks compress to
    /// the same state. A returned pair is a verified collision with
    /// the documented differential shape; `None` means the trial's
    /// probabilistic round-2 conditions did not come out, and the
    /// caller draws again.
    pub fn find_once(&mut self) -> (r: Option<(Vec<u8>, Vec<u8>)>)
        requires
            old(self).wf(),
        ensures
            final(self).wf(),
            final(self).init_view() == old(self).init_view(),
            match r {
                Some((b1, b2)) => {
                    &&& b1@.len() == 64
                    &&& b2@.len() == 64
                    &&& differential(block_words(b1@), block_words(b2@))
                    &&& b1@ != b2@
                    &&& spec_compress(old(self).init_view(), block_words(b1@)) == spec_compress(
                        old(self).init_view(),
                        block_words(b2@),
                    )
                },
                None => true,
            },
    {
        // Re-seed the scratch registers and draw a fresh message.
        self.state = self.init;

        let mut i: usize = 0;
        while i < 16
            invariant
                self.wf(),
                self.init == old(self).init,
                i <= 16,
            decreases 16 - i,
        {
            let w: u32 = rand::random();
            self.data[i] = w;
            i += 1;
        }

        // Round 1: one single-step modification per register update,
        // cycling the written register a, d, c, b.
        self.first_round_single_step(0, 0, 3);
        self.first_round_single_step(1, 3, 7);
        self.first_round_single_step(2, 2, 11);
        self.first_round_single_step(3, 1, 19);
        self.first_round_single_step(4, 0, 3);
        self.first_round_single_step(5, 3, 7);
        self.first_round_single_step(6, 2, 11);
        self.first_round_single_step(7, 1, 19);
        self.first_round_single_step(8, 0, 3);
        self.first_round_single_step(9, 3, 7);
        self.first_round_single_step(10, 2, 11);
        self.first_round_single_step(11, 1, 19);
        self.first_round_single_step(12, 0, 3);
        self.first_round_single_step(13, 3, 7);
        self.first_round_single_step(14, 2, 11);
        self.first_round_single_step(15, 1, 19);

        // Round 2: the two multi-word corrections.
        self.second_round_a5();
        self.second_round_d5();

        let b1 = serialize_words(&self.data);
        let ghost w1 = self.data@;

        // The sibling block: fixed deltas on words 1, 2 and 12.
        let x1 = self.data[1];
        self.data[1] = x1.wrapping_add(0x8000_0000);
        let x2 = self.data[2];
        self.data[2] = x2.wrapping_add(0x8000_0000).wrapping_sub(0x1000_0000);
        let x12 = self.data[12];
        self.data[12] = x12.wrapping_sub(0x1_0000);

        let b2 = serialize_words(&self.data);
        let ghost w2 = self.data@;

        proof {
            assert(differential(w1, w2));
            assert(x1.wrapping_add(0x8000_0000u32) != x1) by (bit_vector);
            assert(w1 != w2);
        }

        // A trial counts only if the two blocks actually collide.
        let s1 = self.init.process_block(b1.as_slice());
        let s2 = self.init.process_block(b2.as_slice());
        if s1 == s2 {
            Some((b1, b2))
        } else {
            None
        }
    }
}

} // verus!
