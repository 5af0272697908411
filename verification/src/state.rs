//! The MD4 chaining state and the compression function over one
//! 64-byte block.
//!
//! A block is read as 16 little-endian 32-bit words; three rounds of 16
//! register updates are followed by a wraparound addition of the
//! pre-round state. `spec_compress` is the mathematical statement of
//! the function; `process_u32array` and `process_block` are proved
//! against it.

use crate::ops::{op1, op2, op3, spec_op1, spec_op2, spec_op3};
use vstd::bytes::{spec_u32_from_le_bytes, u32_from_le_bytes};
use vstd::prelude::*;
use vstd::slice::slice_subrange;

verus! {

/// The fixed initial MD4 chaining values, as host words.
pub open spec fn init_state() -> Seq<u32> {
    seq![0x6745_2301u32, 0xefcd_ab89u32, 0x98ba_dcfeu32, 0x1032_5476u32]
}

/// The 16 little-endian 32-bit words of a 64-byte block.
pub open spec fn block_words(bytes: Seq<u8>) -> Seq<u32>
    recommends
        bytes.len() == 64,
{
    Seq::new(16, |i: int| spec_u32_from_le_bytes(bytes.subrange(4 * i, 4 * i + 4)))
}

/// Shift amount of round-1 step `i`: the cycle 3, 7, 11, 19.
pub open spec fn round1_shift(i: int) -> u32 {
    if i % 4 == 0 {
        3
    } else if i % 4 == 1 {
        7
    } else if i % 4 == 2 {
        11
    } else {
        19
    }
}

/// The register value produced by round-1 step `i` on message words
/// `data`, starting from state `s`; a negative `i` names the seed
/// registers (`-4` the first operand of step 0, `-1` its second, and
/// so on), so that step `i` always combines positions `i - 4`, `i - 1`,
/// `i - 2` and `i - 3`.
pub open spec fn round1_reg(s: Seq<u32>, data: Seq<u32>, i: int) -> u32
    recommends
        s.len() == 4,
        data.len() == 16,
        -4 <= i < 16,
    decreases i + 4,
{
    if i < 0 {
        if i <= -4 {
            s[0]
        } else if i == -3 {
            s[3]
        } else if i == -2 {
            s[2]
        } else {
            s[1]
        }
    } else {
        spec_op1(
            round1_reg(s, data, i - 4),
            round1_reg(s, data, i - 1),
            round1_reg(s, data, i - 2),
            round1_reg(s, data, i - 3),
            data[i],
            round1_shift(i),
        )
    }
}

/// State after round 1: registers a4, b4, c4, d4.
pub open spec fn spec_round1(s: Seq<u32>, x: Seq<u32>) -> Seq<u32>
    recommends
        s.len() == 4,
        x.len() == 16,
{
    seq![
        round1_reg(s, x, 12),
        round1_reg(s, x, 15),
        round1_reg(s, x, 14),
        round1_reg(s, x, 13),
    ]
}

/// State after round 2: column word order with shifts 3, 5, 9, 13.
pub open spec fn spec_round2(s: Seq<u32>, x: Seq<u32>) -> Seq<u32>
    recommends
        s.len() == 4,
        x.len() == 16,
{
    let a1 = spec_op2(s[0], s[1], s[2], s[3], x[0], 3);
    let d1 = spec_op2(s[3], a1, s[1], s[2], x[4], 5);
    let c1 = spec_op2(s[2], d1, a1, s[1], x[8], 9);
    let b1 = spec_op2(s[1], c1, d1, a1, x[12], 13);
    let a2 = spec_op2(a1, b1, c1, d1, x[1], 3);
    let d2 = spec_op2(d1, a2, b1, c1, x[5], 5);
    let c2 = spec_op2(c1, d2, a2, b1, x[9], 9);
    let b2 = spec_op2(b1, c2, d2, a2, x[13], 13);
    let a3 = spec_op2(a2, b2, c2, d2, x[2], 3);
    let d3 = spec_op2(d2, a3, b2, c2, x[6], 5);
    let c3 = spec_op2(c2, d3, a3, b2, x[10], 9);
    let b3 = spec_op2(b2, c3, d3, a3, x[14], 13);
    let a4 = spec_op2(a3, b3, c3, d3, x[3], 3);
    let d4 = spec_op2(d3, a4, b3, c3, x[7], 5);
    let c4 = spec_op2(c3, d4, a4, b3, x[11], 9);
    let b4 = spec_op2(b3, c4, d4, a4, x[15], 13);
    seq![a4, b4, c4, d4]
}

/// State after round 3: interleaved word order with shifts 3, 9, 11, 15.
pub open spec fn spec_round3(s: Seq<u32>, x: Seq<u32>) -> Seq<u32>
    recommends
        s.len() == 4,
        x.len() == 16,
{
    let a1 = spec_op3(s[0], s[1], s[2], s[3], x[0], 3);
    let d1 = spec_op3(s[3], a1, s[1], s[2], x[8], 9);
    let c1 = spec_op3(s[2], d1, a1, s[1], x[4], 11);
    let b1 = spec_op3(s[1], c1, d1, a1, x[12], 15);
    let a2 = spec_op3(a1, b1, c1, d1, x[2], 3);
    let d2 = spec_op3(d1, a2, b1, c1, x[10], 9);
    let c2 = spec_op3(c1, d2, a2, b1, x[6], 11);
    let b2 = spec_op3(b1, c2, d2, a2, x[14], 15);
    let a3 = spec_op3(a2, b2, c2, d2, x[1], 3);
    let d3 = spec_op3(d2, a3, b2, c2, x[9], 9);
    let c3 = spec_op3(c2, d3, a3, b2, x[5], 11);
    let b3 = spec_op3(b2, c3, d3, a3, x[13], 15);
    let a4 = spec_op3(a3, b3, c3, d3, x[3], 3);
    let d4 = spec_op3(d3, a4, b3, c3, x[11], 9);
    let c4 = spec_op3(c3, d4, a4, b3, x[7], 11);
    let b4 = spec_op3(b3, c4, d4, a4, x[15], 15);
    seq![a4, b4, c4, d4]
}

/// The MD4 compression function: three rounds over the 16 message
/// words `x`, then a wraparound addition of the incoming state.
#[verifier::opaque]
pub open spec fn spec_compress(s: Seq<u32>, x: Seq<u32>) -> Seq<u32>
    recommends
        s.len() == 4,
        x.len() == 16,
{
    let r = spec_round3(spec_round2(spec_round1(s, x), x), x);
    seq![
        r[0].wrapping_add(s[0]),
        r[1].wrapping_add(s[1]),
        r[2].wrapping_add(s[2]),
        r[3].wrapping_add(s[3]),
    ]
}

/// Compression of one 64-byte block given as bytes.
pub open spec fn spec_compress_block(s: Seq<u32>, bytes: Seq<u8>) -> Seq<u32>
    recommends
        s.len() == 4,
        bytes.len() == 64,
{
    spec_compress(s, block_words(bytes))
}

/// The 4-word MD4 chaining state.
#[derive(Debug, Clone, Copy)]
pub struct MD4State {
    pub s: [u32; 4],
}

impl View for MD4State {
    type V = Seq<u32>;

    open spec fn view(&self) -> Seq<u32> {
        self.s@
    }
}

impl PartialEq for MD4State {
    fn eq(&self, other: &MD4State) -> bool {
        let r = self.s[0] == other.s[0] && self.s[1] == other.s[1] && self.s[2] == other.s[2]
            && self.s[3] == other.s[3];
        proof {
            if r {
                assert(self.s@ =~= other.s@);
            }
        }
        r
    }
}

impl vstd::std_specs::cmp::PartialEqSpecImpl for MD4State {
    open spec fn obeys_eq_spec() -> bool {
        true
    }

    open spec fn eq_spec(&self, other: &MD4State) -> bool {
        self.s@ == other.s@
    }
}

impl Default for MD4State {
    /// The state a fresh hash computation starts from.
    fn default() -> (r: MD4State)
        ensures
            r@ == init_state(),
    {
        MD4State::new()
    }
}

impl MD4State {
    /// The fixed initial MD4 chaining state.
    pub fn new() -> (r: MD4State)
        ensures
            r@ == init_state(),
    {
        let r = MD4State { s: [0x6745_2301u32, 0xefcd_ab89u32, 0x98ba_dcfeu32, 0x1032_5476u32] };
        proof {
            assert(r.s@ =~= init_state());
        }
        r
    }

    /// Fold one 64-byte block into the state in place.
    pub fn apply_block(&mut self, input: &[u8])
        requires
            input@.len() == 64,
        ensures
            final(self)@ == spec_compress_block(old(self)@, input@),
    {
        *self = self.process_block(input)
    }

    /// Compression of one 64-byte block, given as bytes.
    pub fn process_block(&self, input: &[u8]) -> (r: MD4State)
        requires
            input@.len() == 64,
        ensures
            r@ == spec_compress_block(self@, input@),
    {
        let mut words: Vec<u32> = Vec::new();
        let mut i: usize = 0;
        while i < 16
            invariant
                i <= 16,
                input@.len() == 64,
                words@.len() == i as int,
                forall|j: int|
                    0 <= j < i ==> words@[j] == spec_u32_from_le_bytes(
                        input@.subrange(4 * j, 4 * j + 4),
                    ),
            decreases 16 - i,
        {
            let w = u32_from_le_bytes(slice_subrange(input, 4 * i, 4 * i + 4));
            words.push(w);
            i += 1;
        }
        proof {
            assert(words@ =~= block_words(input@));
        }
        self.process_u32array(words.as_slice())
    }

    /// Compression of one block, given as 16 words.
    pub fn process_u32array(&self, data: &[u32]) -> (r: MD4State)
        requires
            data@.len() == 16,
        ensures
            r@ == spec_compress(self@, data@),
    {
        let ghost s0 = self@;
        let ghost dd = data@;
        let mut a = self.s[0];
        let mut b = self.s[1];
        let mut c = self.s[2];
        let mut d = self.s[3];

        proof {
            assert(round1_reg(s0, dd, -4) == s0[0]);
            assert(round1_reg(s0, dd, -3) == s0[3]);
            assert(round1_reg(s0, dd, -2) == s0[2]);
            assert(round1_reg(s0, dd, -1) == s0[1]);
        }

        a = op1(a, b, c, d, data[0], 3);
        proof {
            assert(a == round1_reg(s0, dd, 0));
        }
        d = op1(d, a, b, c, data[1], 7);
        proof {
            assert(d == round1_reg(s0, dd, 1));
        }
        c = op1(c, d, a, b, data[2], 11);
        proof {
            assert(c == round1_reg(s0, dd, 2));
        }
        b = op1(b, c, d, a, data[3], 19);
        proof {
            assert(b == round1_reg(s0, dd, 3));
        }
        a = op1(a, b, c, d, data[4], 3);
        proof {
            assert(a == round1_reg(s0, dd, 4));
        }
        d = op1(d, a, b, c, data[5], 7);
        proof {
            assert(d == round1_reg(s0, dd, 5));
        }
        c = op1(c, d, a, b, data[6], 11);
        proof {
            assert(c == round1_reg(s0, dd, 6));
        }
        b = op1(b, c, d, a, data[7], 19);
        proof {
            assert(b == round1_reg(s0, dd, 7));
        }
        a = op1(a, b, c, d, data[8], 3);
        proof {
            assert(a == round1_reg(s0, dd, 8));
        }
        d = op1(d, a, b, c, data[9], 7);
        proof {
            assert(d == round1_reg(s0, dd, 9));
        }
        c = op1(c, d, a, b, data[10], 11);
        proof {
            assert(c == round1_reg(s0, dd, 10));
        }
        b = op1(b, c, d, a, data[11], 19);
        proof {
            assert(b == round1_reg(s0, dd, 11));
        }
        a = op1(a, b, c, d, data[12], 3);
        proof {
            assert(a == round1_reg(s0, dd, 12));
        }
        d = op1(d, a, b, c, data[13], 7);
        proof {
            assert(d == round1_reg(s0, dd, 13));
        }
        c = op1(c, d, a, b, data[14], 11);
        proof {
            assert(c == round1_reg(s0, dd, 14));
        }
        b = op1(b, c, d, a, data[15], 19);
        proof {
            assert(b == round1_reg(s0, dd, 15));
            assert(seq![a, b, c, d] =~= spec_round1(s0, dd));
        }

        let ghost r1 = spec_round1(s0, dd);

        a = op2(a, b, c, d, data[0], 3);
        d = op2(d, a, b, c, data[4], 5);
        c = op2(c, d, a, b, data[8], 9);
        b = op2(b, c, d, a, data[12], 13);
        a = op2(a, b, c, d, data[1], 3);
        d = op2(d, a, b, c, data[5], 5);
        c = op2(c, d, a, b, data[9], 9);
        b = op2(b, c, d, a, data[13], 13);
        a = op2(a, b, c, d, data[2], 3);
        d = op2(d, a, b, c, data[6], 5);
        c = op2(c, d, a, b, data[10], 9);
        b = op2(b, c, d, a, data[14], 13);
        a = op2(a, b, c, d, data[3], 3);
        d = op2(d, a, b, c, data[7], 5);
        c = op2(c, d, a, b, data[11], 9);
        b = op2(b, c, d, a, data[15], 13);
        proof {
            assert(seq![a, b, c, d] =~= spec_round2(r1, dd));
        }

        let ghost r2 = spec_round2(r1, dd);

        a = op3(a, b, c, d, data[0], 3);
        d = op3(d, a, b, c, data[8], 9);
        c = op3(c, d, a, b, data[4], 11);
        b = op3(b, c, d, a, data[12], 15);
        a = op3(a, b, c, d, data[2], 3);
        d = op3(d, a, b, c, data[10], 9);
        c = op3(c, d, a, b, data[6], 11);
        b = op3(b, c, d, a, data[14], 15);
        a = op3(a, b, c, d, data[1], 3);
        d = op3(d, a, b, c, data[9], 9);
        c = op3(c, d, a, b, data[5], 11);
        b = op3(b, c, d, a, data[13], 15);
        a = op3(a, b, c, d, data[3], 3);
        d = op3(d, a, b, c, data[11], 9);
        c = op3(c, d, a, b, data[7], 11);
        b = op3(b, c, d, a, data[15], 15);
        proof {
            assert(seq![a, b, c, d] =~= spec_round3(r2, dd));
        }

        let r = MD4State {
            s: [
                a.wrapping_add(self.s[0]),
                b.wrapping_add(self.s[1]),
                c.wrapping_add(self.s[2]),
                d.wrapping_add(self.s[3]),
            ],
        };
        proof {
            reveal(spec_compress);
            assert(r.s@ =~= spec_compress(s0, dd));
        }
        r
    }
}

} // verus!
