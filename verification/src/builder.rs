//! Accumulation of a byte prefix into a chaining state, and the search
//! entry point.
//!
//! Bytes are folded through the compression function one 64-byte block
//! at a time as they arrive; `build` zero-pads the residual partial
//! block (no length suffix, no marker bit: the point is to expose the
//! raw chaining state, not to finalize a digest), folds it, and then
//! retries the collision finder on the resulting state until a pair is
//! found.

use crate::collision::{differential, CollisionFinder};
use crate::state::{block_words, init_state, spec_compress, spec_compress_block, MD4State};
use block_buffer::generic_array::typenum::U64;
use block_buffer::generic_array::GenericArray;
use block_buffer::BlockBuffer;
use vstd::prelude::*;

verus! {

/// A 64-byte accumulation buffer; Verus sees it only through
/// `buf_bytes` and the functions below, which rely on the
/// block_buffer crate.
#[verifier::external_body]
pub struct ByteBuffer {
    inner: BlockBuffer<U64>,
}

/// The bytes the buffer currently holds: what came in after the last
/// completed 64-byte block.
pub uninterp spec fn buf_bytes(b: ByteBuffer) -> Seq<u8>;

/// Relies on block_buffer::BlockBuffer::default: a fresh buffer holds
/// no bytes.
#[verifier::external_body]
fn buffer_new() -> (b: ByteBuffer)
    ensures
        buf_bytes(b) == Seq::<u8>::empty(),
{
    ByteBuffer { inner: BlockBuffer::default() }
}

/// Relies on block_buffer::BlockBuffer::position: how many bytes the
/// buffer currently holds.
#[verifier::external_body]
fn buffer_len(b: &ByteBuffer) -> (n: usize)
    ensures
        n == buf_bytes(*b).len(),
{
    b.inner.position()
}

/// Relies on block_buffer::BlockBuffer::input: appends `data` to the
/// held bytes, hands out each completed 64-byte block in order, and
/// keeps the incomplete tail.
#[verifier::external_body]
fn buffer_feed(b: &mut ByteBuffer, data: &[u8]) -> (blocks: Vec<Vec<u8>>)
    requires
        buf_bytes(*old(b)).len() < 64,
    ensures
        64 * blocks@.len() <= buf_bytes(*old(b)).len() + data@.len(),
        blocks@.len() == (buf_bytes(*old(b)).len() + data@.len()) as int / 64,
        forall|k: int|
            0 <= k < blocks@.len() ==> blocks@[k]@ == (buf_bytes(*old(b)) + data@).subrange(
                64 * k,
                64 * k + 64,
            ),
        buf_bytes(*final(b)) == (buf_bytes(*old(b)) + data@).skip(64 * blocks@.len() as int),
{
    let mut blocks: Vec<Vec<u8>> = Vec::new();
    b.inner.input(data, |blk: &GenericArray<u8, U64>| blocks.push(blk.as_slice().to_vec()));
    blocks
}

/// The chaining state after folding every full 64-byte block of
/// `bytes`, front to back.
pub open spec fn fold_blocks(s: Seq<u32>, bytes: Seq<u8>) -> Seq<u32>
    decreases bytes.len(),
{
    if bytes.len() < 64 {
        s
    } else {
        fold_blocks(spec_compress_block(s, bytes.subrange(0, 64)), bytes.skip(64))
    }
}

/// `n` zero bytes.
pub open spec fn zero_bytes(n: int) -> Seq<u8> {
    Seq::new(n as nat, |i: int| 0u8)
}

/// How many zero bytes bring a prefix of `n` bytes to a whole number of
/// blocks: `(64 - n % 64) % 64`.
pub open spec fn pad_len(n: int) -> int {
    (64 - n % 64) % 64
}

/// Folding the blocks of `x + b` equals folding those of `x` and then
/// the single block `b`.
proof fn lemma_fold_blocks_snoc(s: Seq<u32>, x: Seq<u8>, b: Seq<u8>)
    requires
        x.len() % 64 == 0,
        b.len() == 64,
    ensures
        fold_blocks(s, x + b) == spec_compress_block(fold_blocks(s, x), b),
    decreases x.len(),
{
    if x.len() == 0 {
        assert(x + b =~= b);
        assert(b.subrange(0, 64) =~= b);
        assert(b.skip(64) =~= Seq::<u8>::empty());
        assert(fold_blocks(s, x) == s);
        assert(fold_blocks(s, b) == fold_blocks(
            spec_compress_block(s, b.subrange(0, 64)),
            b.skip(64),
        ));
        assert(fold_blocks(spec_compress_block(s, b), Seq::<u8>::empty()) == spec_compress_block(
            s,
            b,
        ));
    } else {
        assert(x.len() >= 64);
        assert((x + b).subrange(0, 64) =~= x.subrange(0, 64));
        assert((x + b).skip(64) =~= x.skip(64) + b);
        assert(x.skip(64).len() % 64 == 0);
        assert(fold_blocks(s, x + b) == fold_blocks(
            spec_compress_block(s, x.subrange(0, 64)),
            x.skip(64) + b,
        ));
        assert(fold_blocks(s, x) == fold_blocks(
            spec_compress_block(s, x.subrange(0, 64)),
            x.skip(64),
        ));
        lemma_fold_blocks_snoc(spec_compress_block(s, x.subrange(0, 64)), x.skip(64), b);
    }
}

/// Accumulates a byte prefix, folding completed blocks eagerly, and
/// launches the collision search from the reached state.
pub struct Builder {
    input_bytes: u64,
    buffer: ByteBuffer,
    state: MD4State,
    timeout_sec: usize,
    history: Ghost<Seq<u8>>,
}

impl Builder {
    /// Every byte ever fed in, in order.
    pub closed spec fn bytes_view(self) -> Seq<u8> {
        self.history@
    }

    /// The wrapping count of bytes fed in.
    pub closed spec fn byte_count(self) -> u64 {
        self.input_bytes
    }

    /// The configured trial budget in seconds (a hook; the search
    /// itself runs until it succeeds).
    pub closed spec fn timeout_secs(self) -> usize {
        self.timeout_sec
    }

    /// The builder's bookkeeping is coherent: the buffer holds the tail
    /// of the fed bytes behind the last block boundary, and the state
    /// is the fold of everything before it.
    pub closed spec fn wf(self) -> bool {
        let hist = self.history@;
        let buf = buf_bytes(self.buffer);
        &&& buf.len() < 64
        &&& (hist.len() - buf.len()) % 64 == 0
        &&& buf == hist.skip(hist.len() - buf.len())
        &&& self.state@ == fold_blocks(init_state(), hist.take(hist.len() - buf.len()))
    }

    /// A builder that has seen no bytes.
    pub fn new() -> (r: Builder)
        ensures
            r.wf(),
            r.bytes_view() == Seq::<u8>::empty(),
            r.byte_count() == 0,
            r.timeout_secs() == 0,
    {
        let r = Builder {
            input_bytes: 0,
            buffer: buffer_new(),
            state: MD4State::new(),
            timeout_sec: 0,
            history: Ghost(Seq::empty()),
        };
        proof {
            assert(r.history@.skip(0) =~= buf_bytes(r.buffer));
            assert(r.history@.take(0) =~= Seq::<u8>::empty());
        }
        r
    }

    /// Feeds bytes in, folding each completed 64-byte block through the
    /// compression function as soon as it is full.
    pub fn input(&mut self, data: &[u8])
        requires
            old(self).wf(),
        ensures
            final(self).wf(),
            final(self).bytes_view() == old(self).bytes_view() + data@,
            final(self).byte_count() == old(self).byte_count().wrapping_add(data@.len() as u64),
            final(self).timeout_secs() == old(self).timeout_secs(),
    {
        let ghost hist0 = self.history@;
        let ghost buf0 = buf_bytes(self.buffer);
        let ghost done0 = hist0.take(hist0.len() - buf0.len());
        let ghost total = buf0 + data@;

        self.input_bytes = self.input_bytes.wrapping_add(data.len() as u64);

        let blocks = buffer_feed(&mut self.buffer, data);
        let ghost bufn = buf_bytes(self.buffer);
        let n = blocks.len();

        proof {
            assert(done0 + buf0 =~= hist0);
            assert(done0 + total.take(0) =~= done0);
        }

        let mut k: usize = 0;
        while k < n
            invariant
                k <= n,
                n == blocks@.len(),
                done0.len() % 64 == 0,
                total.len() >= 64 * n as int,
                forall|j: int|
                    0 <= j < n ==> blocks@[j]@ == total.subrange(64 * j, 64 * j + 64),
                self.input_bytes == old(self).input_bytes.wrapping_add(data@.len() as u64),
                self.timeout_sec == old(self).timeout_sec,
                self.history@ == hist0,
                buf_bytes(self.buffer) == bufn,
                self.state@ == fold_blocks(init_state(), done0 + total.take(64 * k as int)),
            decreases n - k,
        {
            let ghost prefix = done0 + total.take(64 * k as int);
            proof {
                assert(blocks@[k as int]@ == total.subrange(64 * k as int, 64 * k as int + 64));
                assert(prefix.len() % 64 == 0);
                lemma_fold_blocks_snoc(init_state(), prefix, blocks@[k as int]@);
                assert(prefix + blocks@[k as int]@ =~= done0 + total.take(64 * (k + 1) as int));
            }
            let blk = &blocks[k];
            self.state.apply_block(blk.as_slice());
            k += 1;
        }

        proof {
            self.history@ = hist0 + data@;
            let hist = self.history@;
            let done = done0.len() + 64 * n as int;
            assert(hist.len() == done0.len() + total.len());
            assert(bufn == total.skip(64 * n as int));
            assert(bufn.len() < 64) by {
                assert(total.len() as int / 64 * 64 <= total.len() < (total.len() as int / 64 + 1)
                    * 64) by (nonlinear_arith);
            }
            assert(buf_bytes(self.buffer) =~= hist.skip(hist.len() - bufn.len()));
            assert(hist.take(hist.len() - bufn.len()) =~= done0 + total.take(64 * n as int));
        }
    }

    /// Sets the optional trial budget checked between trials.
    pub fn set_timeout(&mut self, seconds: usize)
        requires
            old(self).wf(),
        ensures
            final(self).wf(),
            final(self).bytes_view() == old(self).bytes_view(),
            final(self).byte_count() == old(self).byte_count(),
            final(self).timeout_secs() == seconds,
    {
        self.timeout_sec = seconds;
    }

    /// Zero-pads the residual partial block to a block boundary, folds
    /// it, and searches from the reached state until two distinct
    /// blocks with equal compression output are found. Returns the
    /// padding actually used and the two blocks. The only failure path
    /// is exhaustion of the trial budget, and the budget is so large
    /// that no run ever reaches it: a handful of trials succeeds on
    /// average.
    pub fn build(&mut self) -> (r: Result<(Vec<u8>, Vec<u8>, Vec<u8>), &'static str>)
        requires
            old(self).wf(),
        ensures
            final(self).wf(),
            final(self).bytes_view() == old(self).bytes_view() + zero_bytes(
                pad_len(old(self).bytes_view().len() as int),
            ),
            match r {
                Ok((padding, m1, m2)) => {
                    let anchor = fold_blocks(init_state(), final(self).bytes_view());
                    &&& padding@ == zero_bytes(pad_len(old(self).bytes_view().len() as int))
                    &&& m1@.len() == 64
                    &&& m2@.len() == 64
                    &&& m1@ != m2@
                    &&& differential(block_words(m1@), block_words(m2@))
                    &&& spec_compress(anchor, block_words(m1@)) == spec_compress(
                        anchor,
                        block_words(m2@),
                    )
                },
                Err(_) => true,
            },
    {
        let ghost hist0 = self.history@;
        let ghost buf0 = buf_bytes(self.buffer);
        let ghost done0 = hist0.take(hist0.len() - buf0.len());

        let mut padding: Vec<u8> = Vec::new();

        let position = buffer_len(&self.buffer);
        if position != 0 {
            // Zero-pad the partial block and fold it.
            let remaining = 64 - position;
            let mut i: usize = 0;
            while i < remaining
                invariant
                    i <= remaining,
                    padding@ =~= zero_bytes(i as int),
                decreases remaining - i,
            {
                padding.push(0);
                i += 1;
            }
            proof {
                assert(done0 + buf0 =~= hist0);
            }
            let blocks = buffer_feed(&mut self.buffer, padding.as_slice());
            let ghost total = buf0 + padding@;
            proof {
                assert(total.len() == 64);
                assert(blocks@.len() == 1);
                assert(blocks@[0]@ == total.subrange(0, 64));
                assert(total.subrange(0, 64) =~= total);
                lemma_fold_blocks_snoc(init_state(), done0, total);
            }
            let blk = &blocks[0];
            self.state.apply_block(blk.as_slice());
            proof {
                self.history@ = hist0 + padding@;
                let hist = self.history@;
                assert(buf_bytes(self.buffer) =~= total.skip(64));
                assert(buf_bytes(self.buffer) =~= hist.skip(hist.len() as int));
                assert(hist.take(hist.len() as int) =~= done0 + total);
                assert(pad_len(hist0.len() as int) == padding@.len());
            }
        } else {
            proof {
                assert(buf0.len() == 0);
                assert(hist0 + padding@ =~= hist0);
                assert(pad_len(hist0.len() as int) == 0);
                assert(zero_bytes(0) =~= padding@);
            }
        }

        proof {
            assert(self.history@.take(self.history@.len() as int) =~= self.history@);
        }

        let ghost padded = self.history@;
        let ghost anchor = self.state@;

        let mut finder = CollisionFinder::from(self.state);
        let mut tries: u64 = 0;
        while tries < 0xFFFF_FFFF_FFFF_FFFFu64
            invariant
                finder.wf(),
                finder.init_view() == anchor,
                self.wf(),
                self.history@ == padded,
                padded == hist0 + zero_bytes(pad_len(hist0.len() as int)),
                anchor == fold_blocks(init_state(), padded),
                padding@ == zero_bytes(pad_len(hist0.len() as int)),
                self.input_bytes == old(self).input_bytes,
                self.timeout_sec == old(self).timeout_sec,
                hist0 == old(self).history@,
            decreases 0xFFFF_FFFF_FFFF_FFFFu64 - tries,
        {
            match finder.find_once() {
                Some((m1, m2)) => {
                    return Ok((padding, m1, m2));
                },
                None => {
                },
            }
            tries += 1;
        }
        Err("trial budget exhausted")
    }
}

} // verus!
