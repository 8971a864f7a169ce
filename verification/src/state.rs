//! Streaming state.

use vstd::prelude::*;
use crate::compress::compress;
use crate::spec::{self, StateView};

verus! {

/// A hashing computation in progress.
///
/// `update` compresses every whole block as soon as more input follows,
/// keeping at most one block pending. That is what makes a shared prefix cost
/// one absorption rather than one per digest, and it is a property of this
/// interface rather than of the implementation behind it.
///
/// `clone` is the prefix mechanism: cloning a prefix-absorbed state and
/// appending a tail costs a single compression per digest.
pub struct State {
    h: [u64; 8],
    // Two u64 rather than one u128: u128's alignment is target-dependent,
    // and it would make the size of the state vary across targets. Order is
    // [low, high].
    t: [u64; 2],
    buf: [u8; 128],
    // u8 rather than usize: both are bounded by 128 and 64, and the state is
    // cloned once per digest in the prefix workload.
    buflen: u8,
    outlen: u8,
    model: Ghost<StateView>,
    calls: Ghost<nat>,
}

impl View for State {
    type V = StateView;

    /// Where the computation started, its digest length, its key, and the
    /// message supplied so far.
    closed spec fn view(&self) -> StateView {
        self.model@
    }
}

impl State {
    /// The concrete fields are the absorption of `self@`: the chaining value
    /// of every compressed block, the count of their bytes, and the pending
    /// bytes in the buffer; and one compression was made per compressed
    /// block.
    #[verifier::type_invariant]
    closed spec fn absorbs_model(self) -> bool {
        let s = self.model@;
        &&& s.wf()
        &&& self.outlen == s.hash_length
        &&& self.h@ == s.chaining_value()
        &&& spec::counter_value(self.t@) == s.compressed_bytes() as int % spec::counter_modulus()
        &&& self.buflen == s.pending()
        &&& self.buf@.subrange(0, self.buflen as int) == s.pending_bytes()
        &&& self.calls@ == s.compressed_blocks()
    }

    /// Compression calls made on this state's data since it was created.
    pub closed spec fn compressions(&self) -> nat {
        self.calls@
    }

    /// A state with default parameters and a 64-byte digest. Equivalent to
    /// `Params::new().to_state()`.
    pub fn new() -> (r: Self)
        ensures
            r@ == spec::default_params().start_state(Seq::empty()),
            r@.wf(),
            r.compressions() == 0,
    {
        crate::Params::new().to_state()
    }

    /// A fresh state from the chaining value `h` and a digest length of 1 to
    /// 64: nothing compressed, nothing pending.
    pub(crate) fn from_parts(h: [u64; 8], outlen: usize) -> (r: Self)
        requires
            1 <= outlen <= 64,
        ensures
            r@ == (StateView {
                start: h@,
                hash_length: outlen as nat,
                key: Seq::empty(),
                message: Seq::empty(),
            }),
            r.compressions() == 0,
    {
        let ghost model = StateView {
            start: h@,
            hash_length: outlen as nat,
            key: Seq::empty(),
            message: Seq::empty(),
        };
        proof {
            assert(spec::key_block(model.key) =~= Seq::<u8>::empty());
            assert(model.data() =~= Seq::<u8>::empty());
            assert(model.pending_bytes() =~= Seq::<u8>::empty());
        }
        let buf: [u8; 128] = [0; 128];
        assert(buf@.subrange(0, 0) =~= Seq::<u8>::empty());
        State {
            h,
            t: [0, 0],
            buf,
            buflen: 0,
            outlen: outlen as u8,
            model: Ghost(model),
            calls: Ghost(0),
        }
    }

    /// Make a fresh unkeyed state keyed: the key block becomes the first
    /// pending block, compressed once more input follows it, or as the final
    /// block if none does.
    pub(crate) fn set_key_block(&mut self, block: [u8; 128], Ghost(key): Ghost<Seq<u8>>)
        requires
            old(self)@.key.len() == 0,
            old(self)@.message.len() == 0,
            1 <= key.len() <= 64,
            block@ == spec::key_block(key),
        ensures
            final(self)@ == (StateView { key: key, ..old(self)@ }),
            final(self).compressions() == old(self).compressions(),
    {
        proof {
            use_type_invariant(&*self);
        }
        let ghost s0 = self@;
        let ghost s1 = StateView { key: key, ..s0 };
        proof {
            assert(s0.data() =~= Seq::<u8>::empty());
            assert(s1.data() =~= block@);
            spec::lemma_full_blocks(0, 128);
            assert(s1.pending_bytes() =~= block@);
            assert(block@.subrange(0, 128) =~= block@);
            reveal_with_fuel(spec::chain, 1);
        }
        *self = State {
            h: self.h,
            t: self.t,
            buf: block,
            buflen: 128,
            outlen: self.outlen,
            model: Ghost(s1),
            calls: self.calls,
        };
    }
}

/// Compress block `nb` of `data` into the chaining value `h` of its first
/// `nb` blocks from `start`, advancing the counter `t` by one block and the
/// tally of compressions by one. Not finalization.
fn absorb(
    h: &mut [u64; 8],
    t: &mut [u64; 2],
    calls: &mut Ghost<nat>,
    block: &[u8; 128],
    Ghost(start): Ghost<Seq<u64>>,
    Ghost(data): Ghost<Seq<u8>>,
    Ghost(nb): Ghost<nat>,
)
    requires
        old(h)@ == spec::chain(start, data, nb),
        spec::counter_value(old(t)@) == (128 * nb) as int % spec::counter_modulus(),
        128 * nb + 128 <= data.len(),
        block@ == data.subrange(128 * nb as int, 128 * nb as int + 128),
    ensures
        final(h)@ == spec::compress(
            old(h)@,
            spec::block_words(block@),
            spec::counter_lo(128 * (nb + 1) as int),
            spec::counter_hi(128 * (nb + 1) as int),
            false,
        ),
        final(h)@ == spec::chain(start, data, nb + 1),
        spec::counter_value(final(t)@) == (128 * (nb + 1)) as int % spec::counter_modulus(),
        final(calls)@ == old(calls)@ + 1,
{
    let lo = t[0].wrapping_add(128);
    let hi = t[1].wrapping_add(if lo < 128 { 1 } else { 0 });
    proof {
        let m2 = spec::counter_modulus();
        spec::lemma_counter_add(t[0], t[1], 128, lo, hi);
        vstd::arithmetic::div_mod::lemma_add_mod_noop(128 * nb as int, 128, m2);
        vstd::arithmetic::div_mod::lemma_small_mod(128, m2 as nat);
        spec::lemma_counter_words(128 * (nb + 1), lo, hi);
    }
    *t = [lo, hi];
    compress(h, block, *t, false, calls);
}

/// Copy `count` bytes of `src` from `from` into `dst` at `at`.
fn copy_into(dst: &mut [u8; 128], at: usize, src: &[u8], from: usize, count: usize)
    requires
        at + count <= 128,
        from + count <= src.len(),
    ensures
        forall|j: int| 0 <= j < at || at + count <= j < 128 ==> final(dst)[j] == old(dst)[j],
        forall|j: int| at <= j < at + count ==> final(dst)[j] == src@[from + j - at],
{
    for i in 0..count
        invariant
            at + count <= 128,
            from + count <= src.len(),
            forall|j: int| 0 <= j < at || at + i <= j < 128 ==> dst[j] == old(dst)[j],
            forall|j: int| at <= j < at + i ==> dst[j] == src@[from + j - at],
    {
        dst[at + i] = src[from + i];
    }
}

/// After the whole blocks of an update are compressed, the bytes left over
/// join the `at` bytes already pending, and together they are the pending
/// bytes of the extended data.
proof fn lemma_tail_pending(
    s0: StateView,
    input: Seq<u8>,
    nb: nat,
    off: nat,
    at: nat,
    old_buf: Seq<u8>,
    new_buf: Seq<u8>,
)
    requires
        s0.wf(),
        off <= input.len(),
        old_buf.len() == 128,
        new_buf.len() == 128,
        at == 0 ==> 128 * nb == s0.data().len() + off,
        at == 0 && s0.data().len() + off > 0 ==> off < input.len(),
        at > 0 ==> {
            &&& off == 0
            &&& at == s0.pending()
            &&& nb == s0.compressed_blocks()
            &&& input.len() + at <= 128
            &&& old_buf.subrange(0, at as int) == s0.pending_bytes()
        },
        at + input.len() - off <= 128,
        forall|j: int| 0 <= j < at ==> new_buf[j] == old_buf[j],
        forall|j: int| at <= j < at + input.len() - off ==> new_buf[j] == input[off + j - at],
    ensures
        s0.append(input).compressed_blocks() == nb,
        s0.append(input).pending() == at + input.len() - off,
        new_buf.subrange(0, at + input.len() - off) == s0.append(input).pending_bytes(),
{
    let s1 = s0.append(input);
    let d0 = s0.data().len();
    let d1 = s1.data().len();
    let rem = (input.len() - off) as nat;
    assert(s1.data() =~= s0.data() + input);
    spec::lemma_pending_bounds(d0);
    if at == 0 {
        if rem == 0 {
            assert(d1 == 0);
        } else {
            spec::lemma_full_blocks(nb, rem);
        }
    } else {
        spec::lemma_full_blocks(spec::full_blocks(d0), at + rem);
    }
    if at == 0 {
        assert forall|j: int| 0 <= j < rem implies new_buf[j] == s1.pending_bytes()[j] by {
            assert(s1.pending_bytes()[j] == s1.data()[d0 + off + j]);
        }
    } else {
        let fb0 = spec::full_blocks(d0);
        assert forall|j: int| 0 <= j < at + rem implies new_buf[j] == s1.pending_bytes()[j] by {
            if j < at {
                assert(old_buf[j] == old_buf.subrange(0, at as int)[j]);
                assert(s0.pending_bytes()[j] == s0.data()[128 * fb0 + j]);
            }
        }
    }
    assert(new_buf.subrange(0, (at + rem) as int) =~= s1.pending_bytes());
}

impl State {
    /// Absorb input, compressing whole blocks eagerly: one compression per
    /// block that more input now follows.
    ///
    /// A full block is retained rather than compressed only when nothing
    /// follows it: finalization has to mark the last block, so the trailing
    /// block cannot be flushed early.
    pub fn update(&mut self, input: &[u8]) -> (r: &mut Self)
        ensures
            (*r)@ == old(self)@.append(input@),
            (*r).compressions() == old(self).compressions() + ((*r)@.compressed_blocks()
                - old(self)@.compressed_blocks()),
            *final(self) == *final(r),
    {
        self.absorb_input(input);
        self
    }

    fn absorb_input(&mut self, input: &[u8])
        ensures
            final(self)@ == old(self)@.append(input@),
            final(self).compressions() == old(self).compressions() + (final(self)@.compressed_blocks()
                - old(self)@.compressed_blocks()),
    {
        proof {
            use_type_invariant(&*self);
        }
        let ghost s0 = self@;
        let ghost s1 = s0.append(input@);
        let ghost data = s1.data();
        let ghost start = s0.start;
        let ghost d0 = s0.data().len();
        let ghost mut nb: nat = s0.compressed_blocks();
        proof {
            assert(data =~= s0.data() + input@);
            spec::lemma_pending_bounds(d0);
            spec::lemma_chain_prefix(start, s0.data(), input@, nb);
        }
        let mut h = self.h;
        let mut t = self.t;
        let mut buf = self.buf;
        let mut buflen = self.buflen;
        let mut calls = self.calls;
        let mut off: usize = 0;

        // Fill and flush the pending block, but only if more input follows.
        if buflen > 0 {
            let at = buflen as usize;
            let want = 128 - at;
            if input.len() > want {
                let mut block = buf;
                copy_into(&mut block, at, input, 0, want);
                proof {
                    assert forall|j: int| 0 <= j < 128 implies block@[j] == data[128 * nb + j] by {
                        if j < at {
                            assert(block@[j] == s0.pending_bytes()[j]);
                        }
                    }
                    assert(block@ =~= data.subrange(128 * nb as int, 128 * nb as int + 128));
                }
                absorb(&mut h, &mut t, &mut calls, &block, Ghost(start), Ghost(data), Ghost(nb));
                buflen = 0;
                off = want;
                proof {
                    nb = nb + 1;
                }
            }
        }

        // Whole blocks, keeping the last one pending.
        while input.len() - off > 128
            invariant
                off <= input@.len(),
                s0.wf(),
                data == s1.data(),
                d0 == s0.data().len(),
                data == s0.data() + input@,
                h@ == spec::chain(start, data, nb),
                spec::counter_value(t@) == (128 * nb) as int % spec::counter_modulus(),
                calls@ == nb,
                buflen == 0 ==> 128 * nb == d0 + off,
                buflen == 0 && d0 + off > 0 ==> off < input@.len(),
                buflen > 0 ==> {
                    &&& off == 0
                    &&& buflen == s0.pending()
                    &&& nb == s0.compressed_blocks()
                    &&& input@.len() + buflen <= 128
                    &&& buf@.subrange(0, buflen as int) == s0.pending_bytes()
                },
            decreases input@.len() - off,
        {
            let mut block = [0u8; 128];
            copy_into(&mut block, 0, input, off, 128);
            proof {
                assert forall|j: int| 0 <= j < 128 implies block@[j] == data[128 * nb + j] by {}
                assert(block@ =~= data.subrange(128 * nb as int, 128 * nb as int + 128));
            }
            absorb(&mut h, &mut t, &mut calls, &block, Ghost(start), Ghost(data), Ghost(nb));
            off = off + 128;
            proof {
                nb = nb + 1;
            }
        }

        let at = buflen as usize;
        let rem = input.len() - off;
        let ghost before = buf@;
        copy_into(&mut buf, at, input, off, rem);
        proof {
            lemma_tail_pending(s0, input@, nb, off as nat, at as nat, before, buf@);
        }
        *self = State {
            h,
            t,
            buf,
            buflen: buflen + rem as u8,
            outlen: self.outlen,
            model: Ghost(s1),
            calls,
        };
    }

    /// `update` by value, for chaining from a builder.
    ///
    /// Convenience only, and not for the per-digest inner loop: taking and
    /// returning `Self` moves the whole state. Use it to build a prefix state
    /// once; use `update` for each tail.
    pub fn update_owned(self, input: &[u8]) -> (r: Self)
        ensures
            r@ == self@.append(input@),
            r.compressions() == self.compressions() + (r@.compressed_blocks()
                - self@.compressed_blocks()),
    {
        let mut s = self;
        s.absorb_input(input);
        s
    }

    /// The digest, without consuming the state.
    ///
    /// Taking `&self` lets a caller finalize a clone, or the state itself,
    /// and continue hashing. It costs one compression, of the pending bytes
    /// as the final block: `finish` states the count.
    pub fn finalize(&self) -> (r: crate::Hash)
        ensures
            r@ == spec::digest(self@),
            r.raw() == spec::words_to_bytes(spec::final_chain(self@)),
            r@ == r.raw().subrange(0, self@.hash_length as int),
            r@.len() == self@.hash_length,
            1 <= r@.len() <= 64,
    {
        let mut calls: Ghost<nat> = Ghost(0);
        self.finish(&mut calls)
    }

    /// Compress the pending bytes, zero-padded, as the final block: exactly
    /// one compression call, added to the tally `calls`.
    fn finish(&self, calls: &mut Ghost<nat>) -> (r: crate::Hash)
        ensures
            r@ == spec::digest(self@),
            r.raw() == spec::words_to_bytes(spec::final_chain(self@)),
            r@ == r.raw().subrange(0, self@.hash_length as int),
            r@.len() == self@.hash_length,
            1 <= r@.len() <= 64,
            final(calls)@ == old(calls)@ + 1,
    {
        proof {
            use_type_invariant(self);
        }
        let ghost s = self@;
        let mut h = self.h;

        // Pad into a fresh block: only `buflen` bytes are live.
        let n = self.buflen as usize;
        let mut block = [0u8; 128];
        proof {
            spec::lemma_pending_bounds(s.data().len());
            assert(forall|j: int| 0 <= j < 128 ==> block@[j] == 0u8);
        }
        copy_into(&mut block, 0, self.buf.as_slice(), 0, n);
        assert(block@ =~= spec::zero_pad(s.pending_bytes(), 128)) by {
            assert forall|j: int| 0 <= j < n implies block@[j] == s.pending_bytes()[j] by {
                assert(self.buf@[j] == self.buf@.subrange(0, n as int)[j]);
            }
        }

        // The pending bytes count toward the length in the final block only.
        let pending = self.buflen as u64;
        let lo = self.t[0].wrapping_add(pending);
        let hi = self.t[1].wrapping_add(if lo < pending { 1 } else { 0 });
        proof {
            let m2 = spec::counter_modulus();
            let total = s.data().len();
            spec::lemma_counter_add(self.t[0], self.t[1], pending, lo, hi);
            assert(total == s.compressed_bytes() + pending);
            vstd::arithmetic::div_mod::lemma_add_mod_noop(s.compressed_bytes() as int, pending as int, m2);
            vstd::arithmetic::div_mod::lemma_small_mod(pending as nat, m2 as nat);
            spec::lemma_counter_words(total, lo, hi);
        }
        compress(&mut h, &block, [lo, hi], true, calls);
        assert(h@ == spec::final_chain(s));

        let mut out = [0u8; 64];
        for i in 0..8
            invariant
                h@ == spec::final_chain(s),
                forall|k: int| 0 <= k < 8 * i ==> out[k] == (h[k / 8] >> (8 * (k % 8)) as u64) as u8,
        {
            let w = h[i];
            out[8 * i] = (w >> 0) as u8;
            out[8 * i + 1] = (w >> 8) as u8;
            out[8 * i + 2] = (w >> 16) as u8;
            out[8 * i + 3] = (w >> 24) as u8;
            out[8 * i + 4] = (w >> 32) as u8;
            out[8 * i + 5] = (w >> 40) as u8;
            out[8 * i + 6] = (w >> 48) as u8;
            out[8 * i + 7] = (w >> 56) as u8;
            proof {
                assert forall|k: int| 0 <= k < 8 * i + 8 implies #[trigger] out[k] == (h[k / 8] >> (8
                    * (k % 8)) as u64) as u8 by {
                    if k >= 8 * i {
                        assert(k / 8 == i && k % 8 == k - 8 * i);
                    }
                }
            }
        }
        assert(out@ =~= spec::words_to_bytes(h@));
        crate::Hash::new(out, self.outlen as usize)
    }

    /// Bytes absorbed so far, excluding any pending partial block: the
    /// counter, which wraps at 2^128.
    pub fn count(&self) -> (r: u128)
        ensures
            r == self@.compressed_bytes() as int % spec::counter_modulus(),
    {
        proof {
            use_type_invariant(self);
        }
        let lo = self.t[0];
        let hi = self.t[1];
        let r = (lo as u128) | ((hi as u128) << 64);
        assert(r == lo + hi * 0x1_0000_0000_0000_0000u128) by (bit_vector)
            requires
                r == (lo as u128) | ((hi as u128) << 64),
        ;
        r
    }

    /// Bytes pending in the unflushed block, 0 to 128.
    pub fn pending(&self) -> (r: usize)
        ensures
            r == self@.pending(),
            r <= 128,
    {
        proof {
            use_type_invariant(self);
            spec::lemma_pending_bounds(self@.data().len());
        }
        self.buflen as usize
    }

    /// Whether a tail of `tail_len` bytes can be appended and finalized in a
    /// single compression: whether `pending() + tail_len <= 128`.
    ///
    /// BLAKE2b retains a full trailing block rather than flushing it, so a
    /// prefix that is a positive multiple of 128 leaves 128 bytes pending and
    /// admits no tail at all.
    pub fn prefix_check(&self, tail_len: usize) -> (r: bool)
        ensures
            r == (tail_len + self@.pending() <= 128),
    {
        proof {
            use_type_invariant(self);
            spec::lemma_pending_bounds(self@.data().len());
        }
        tail_len <= 128 - self.buflen as usize
    }
}

impl Clone for State {
    fn clone(&self) -> (r: Self)
        ensures
            r == *self,
    {
        proof {
            use_type_invariant(self);
        }
        State {
            h: self.h,
            t: self.t,
            buf: self.buf,
            buflen: self.buflen,
            outlen: self.outlen,
            model: self.model,
            calls: self.calls,
        }
    }
}

impl Default for State {
    fn default() -> (r: Self)
        ensures
            r@ == spec::default_params().start_state(Seq::empty()),
            r@.wf(),
            r.compressions() == 0,
    {
        Self::new()
    }
}

} // verus!
