use md4rip::collision::CollisionFinder;
use md4rip::ops::{f, g, h, op1, op1_t, op2, op2_t, op3};
use md4rip::state::MD4State;

fn le_words(block: &[u8]) -> Vec<u32> {
    assert_eq!(block.len(), 64);
    (0..16)
        .map(|i| {
            u32::from_le_bytes([
                block[4 * i],
                block[4 * i + 1],
                block[4 * i + 2],
                block[4 * i + 3],
            ])
        })
        .collect()
}

// The compression core reproduces the published MD4 digests of the
// empty message and of "abc"; the standards-compliant padding (marker
// bit and bit-length suffix) is built here, since the library itself
// deliberately never applies it.
#[test]
fn compress_known_vectors() {
    // MD4("") = 31d6cfe0d16ae931b73c59d7e0c089c0
    let mut block = vec![0u8; 64];
    block[0] = 0x80;
    let st = MD4State::new().process_block(&block);
    assert_eq!(st.s, [0xe0cfd631, 0x31e96ad1, 0xd7593cb7, 0xc089c0e0]);

    // MD4("abc") = a448017aaf21d8525fc10ae87aa6729d
    let mut block = vec![0u8; 64];
    block[0] = b'a';
    block[1] = b'b';
    block[2] = b'c';
    block[3] = 0x80;
    block[56] = 24;  // message length in bits, little-endian
    let st = MD4State::new().process_block(&block);
    assert_eq!(st.s, [0x7a0148a4, 0x52d821af, 0xe80ac15f, 0x9d72a67a]);
}

// The combining functions on easily checked words.
#[test]
fn combining_functions() {
    assert_eq!(f(0xFFFF_0000, 0x1234_5678, 0x9ABC_DEF0), 0x1234_DEF0);
    assert_eq!(g(0xFF00_FF00, 0xF0F0_F0F0, 0x0F0F_0F0F), 0xFF00_FF00);
    assert_eq!(h(0xFF00_FF00, 0xF0F0_F0F0, 0x0F0F_0F0F), 0x00FF_00FF);
}

// The inverse operators recover the message word from the forward
// operators' output, for every shift the algorithm uses.
#[test]
fn operator_inverse_on_samples() {
    let shifts = [3u32, 5, 7, 9, 11, 13, 15, 19];
    let samples = [
        (0u32, 0u32, 0u32, 0u32, 0u32),
        (0x6745_2301, 0xefcd_ab89, 0x98ba_dcfe, 0x1032_5476, 0xdead_beef),
        (0xffff_ffff, 0xffff_ffff, 0xffff_ffff, 0xffff_ffff, 0xffff_ffff),
        (0x0123_4567, 0x89ab_cdef, 0x5555_aaaa, 0x0f0f_f0f0, 0x8000_0001),
    ];
    for &s in shifts.iter() {
        for &(a, b, c, d, m) in samples.iter() {
            assert_eq!(op1_t(op1(a, b, c, d, m, s), s, a, b, c, d), m);
            assert_eq!(op2_t(op2(a, b, c, d, m, s), s, a, b, c, d), m);
        }
    }
}

// A forward round-3 step on a known input.
#[test]
fn forward_operator_values() {
    // op1 with all-zero inputs is a rotation of zero.
    assert_eq!(op1(0, 0, 0, 0, 0, 3), 0);
    // op2 on zeroes rotates the round-2 constant.
    assert_eq!(op2(0, 0, 0, 0, 0, 3), 0x5A82_7999u32.rotate_left(3));
    // op3 on zeroes rotates the round-3 constant.
    assert_eq!(op3(0, 0, 0, 0, 0, 9), 0x6ED9_EBA1u32.rotate_left(9));
}

// The two blocks of a found pair differ exactly in words 1, 2 and 12,
// by +2^31, +2^31 - 2^28 and -2^16, and collide under compression.
#[test]
fn sibling_block_differential_shape() {
    let mut finder = CollisionFinder::from(MD4State::new());
    let (m1, m2) = loop {
        if let Some(pair) = finder.find_once() {
            break pair;
        }
    };

    assert_eq!(m1.len(), 64);
    assert_eq!(m2.len(), 64);
    assert_ne!(m1, m2);

    let w1 = le_words(&m1);
    let w2 = le_words(&m2);
    assert_eq!(w2[1], w1[1].wrapping_add(1u32 << 31));
    assert_eq!(w2[2], w1[2].wrapping_add(1u32 << 31).wrapping_sub(1u32 << 28));
    assert_eq!(w2[12], w1[12].wrapping_sub(1u32 << 16));
    for j in 0..16 {
        if j != 1 && j != 2 && j != 12 {
            assert_eq!(w1[j], w2[j]);
        }
    }

    let s1 = MD4State::new().process_block(&m1);
    let s2 = MD4State::new().process_block(&m2);
    assert_eq!(s1, s2);
}

// apply_block mutates in place exactly as process_block computes.
#[test]
fn apply_block_matches_process_block() {
    let block: Vec<u8> = (0..64).map(|i| (i * 7 + 3) as u8).collect();
    let base = MD4State::new();
    let expected = base.process_block(&block);
    let mut st = MD4State::new();
    st.apply_block(&block);
    assert_eq!(st, expected);
    assert_ne!(st, base);
}
