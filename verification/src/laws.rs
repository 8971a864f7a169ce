//! Properties of the library as a whole, stated over the model that the
//! contracts of `Params` and `State` speak of.

use vstd::prelude::*;
use crate::spec::{self, ParamsView, StateView};
use crate::State;

verus! {

/// Eager absorption: every byte supplied (the key block, then the message)
/// is either compressed or pending, at most one block is pending, and
/// unless nothing was supplied the last 1 to 128 bytes are held back for the
/// final block.
pub proof fn law_eager_absorption(s: StateView)
    ensures
        s.compressed_bytes() + s.pending() == s.data().len(),
        s.data().len() == 0 ==> s.pending() == 0,
        s.data().len() > 0 ==> 1 <= s.pending() <= 128,
        s.pending_bytes() == s.data().subrange(
            s.data().len() - s.pending(),
            s.data().len() as int,
        ),
{
    spec::lemma_pending_bounds(s.data().len());
}

/// The prefix property: appending a tail to a state compresses nothing more
/// (so its digest costs the single final compression) exactly when the tail
/// fits beside the pending bytes, `pending + tail_len <= 128`.
pub proof fn law_tail_fits_iff_no_compression(s: StateView, tail: Seq<u8>)
    ensures
        (tail.len() + s.pending() <= 128) <==> (s.append(tail).compressed_blocks()
            == s.compressed_blocks()),
{
    let n = s.data().len();
    let m = n + tail.len();
    assert(s.append(tail).data() =~= s.data() + tail);
    spec::lemma_pending_bounds(n);
    spec::lemma_pending_bounds(m);
    let fb = spec::full_blocks(n);
    let p = s.pending();
    if n == 0 {
        if tail.len() > 0 {
            spec::lemma_full_blocks(spec::full_blocks(m), spec::pending_len(m));
        }
    } else if tail.len() + p <= 128 {
        spec::lemma_full_blocks(fb, p + tail.len());
    } else {
        assert(spec::full_blocks(m) > fb) by {
            spec::lemma_full_blocks(spec::full_blocks(m), spec::pending_len(m));
        }
    }
}

/// The prefix property as a theorem about the digest: when a tail fits
/// beside the pending bytes, the final chaining value of the extended
/// computation is one final compression of the state's chaining value, over
/// the pending bytes and the tail, zero-padded, with a counter of every byte.
pub proof fn law_tail_digest_is_one_compression(s: StateView, tail: Seq<u8>)
    requires
        tail.len() + s.pending() <= 128,
    ensures
        spec::final_chain(s.append(tail)) == spec::compress(
            s.chaining_value(),
            spec::block_words(spec::zero_pad(s.pending_bytes() + tail, 128)),
            spec::counter_lo((s.data().len() + tail.len()) as int),
            spec::counter_hi((s.data().len() + tail.len()) as int),
            true,
        ),
{
    let s1 = s.append(tail);
    let nb = s.compressed_blocks();
    law_tail_fits_iff_no_compression(s, tail);
    law_eager_absorption(s);
    assert(s1.data() =~= s.data() + tail);
    spec::lemma_chain_prefix(s.start, s.data(), tail, nb);
    assert(s1.chaining_value() == s.chaining_value());
    assert(s1.pending_bytes() =~= s.pending_bytes() + tail);
}

/// The one-compression criterion, counted: an update that yields `after`
/// from `before` (as `State::update` and `State::update_owned` state) makes
/// no compression call exactly when `prefix_check(tail.len())` holds of
/// `before`, so that finalizing costs the digest's only compression; and
/// otherwise it makes at least one.
pub proof fn law_update_compressions(before: State, after: State, tail: Seq<u8>)
    requires
        after@ == before@.append(tail),
        after.compressions() == before.compressions() + (after@.compressed_blocks()
            - before@.compressed_blocks()),
    ensures
        (tail.len() + before@.pending() <= 128) <==> after.compressions() == before.compressions(),
        after.compressions() >= before.compressions(),
{
    law_tail_fits_iff_no_compression(before@, tail);
    let n = before@.data().len();
    assert(after@.data() =~= before@.data() + tail);
    if n > 0 {
        assert(spec::full_blocks(n) <= spec::full_blocks(n + tail.len())) by (nonlinear_arith)
            requires
                n > 0,
                spec::full_blocks(n) == (n - 1) / 128,
                spec::full_blocks(n + tail.len()) == (n + tail.len() - 1) / 128,
        ;
    }
}

/// Absorbing in pieces equals absorbing at once: two updates leave the same
/// computation, hence the same digest, as one update with their
/// concatenation.
pub proof fn law_updates_concatenate(s: StateView, a: Seq<u8>, b: Seq<u8>)
    ensures
        s.append(a).append(b) == s.append(a + b),
        spec::digest(s.append(a).append(b)) == spec::digest(s.append(a + b)),
{
    assert(s.message + a + b =~= s.message + (a + b));
    assert(s.append(a).append(b) == s.append(a + b));
}

/// An empty update changes nothing.
pub proof fn law_empty_update(s: StateView)
    ensures
        s.append(Seq::empty()) == s,
{
    assert(s.message + Seq::<u8>::empty() =~= s.message);
}

/// Every digest is exactly `hash_length` bytes, 1 to 64.
pub proof fn law_digest_length(s: StateView)
    requires
        s.wf(),
    ensures
        spec::digest(s).len() == s.hash_length,
        1 <= spec::digest(s).len() <= 64,
{
}

/// The parameter block determines the initial chaining value one to one:
/// two configurations that differ in digest length, key length, salt or
/// personalization start from different chaining values.
pub proof fn law_initial_chain_injective(p: ParamsView, q: ParamsView)
    requires
        p.wf(),
        q.wf(),
        p.initial_chain() == q.initial_chain(),
    ensures
        p == q,
{
    let bp = p.param_block();
    let bq = q.param_block();
    assert(bp.len() == 64 && bq.len() == 64);
    assert forall|i: int| 0 <= i < 8 implies #[trigger] spec::load64(bp, 8 * i) == spec::load64(bq, 8 * i) by {
        let x = spec::load64(bp, 8 * i);
        let y = spec::load64(bq, 8 * i);
        let v = spec::IV[i];
        assert(p.initial_chain()[i] == v ^ x);
        assert(q.initial_chain()[i] == v ^ y);
        assert(v ^ x == v ^ y ==> x == y) by (bit_vector);
    }
    assert forall|k: int| 0 <= k < 64 implies #[trigger] bp[k] == bq[k] by {
        let i = k / 8;
        let off = 8 * i;
        lemma_load64_injective(bp, bq, off);
    }
    assert(bp =~= bq);
    assert(p.salt =~= bp.subrange(32, 48));
    assert(q.salt =~= bq.subrange(32, 48));
    assert(p.personal =~= bp.subrange(48, 64));
    assert(q.personal =~= bq.subrange(48, 64));
    assert(bp[0] == p.hash_length as u8 && bq[0] == q.hash_length as u8);
    assert(bp[1] == p.key_length as u8 && bq[1] == q.key_length as u8);
}

/// Equal little-endian words come from equal bytes.
proof fn lemma_load64_injective(a: Seq<u8>, b: Seq<u8>, off: int)
    requires
        0 <= off,
        off + 8 <= a.len(),
        off + 8 <= b.len(),
        spec::load64(a, off) == spec::load64(b, off),
    ensures
        forall|j: int| off <= j < off + 8 ==> a[j] == b[j],
{
    let (a0, a1, a2, a3, a4, a5, a6, a7) = (
        a[off],
        a[off + 1],
        a[off + 2],
        a[off + 3],
        a[off + 4],
        a[off + 5],
        a[off + 6],
        a[off + 7],
    );
    let (b0, b1, b2, b3, b4, b5, b6, b7) = (
        b[off],
        b[off + 1],
        b[off + 2],
        b[off + 3],
        b[off + 4],
        b[off + 5],
        b[off + 6],
        b[off + 7],
    );
    assert(((a0 as u64) | (a1 as u64) << 8 | (a2 as u64) << 16 | (a3 as u64) << 24 | (a4 as u64)
        << 32 | (a5 as u64) << 40 | (a6 as u64) << 48 | (a7 as u64) << 56) == ((b0 as u64) | (
    b1 as u64) << 8 | (b2 as u64) << 16 | (b3 as u64) << 24 | (b4 as u64) << 32 | (b5 as u64)
        << 40 | (b6 as u64) << 48 | (b7 as u64) << 56) ==> a0 == b0 && a1 == b1 && a2 == b2 && a3
        == b3 && a4 == b4 && a5 == b5 && a6 == b6 && a7 == b7) by (bit_vector);
}

} // verus!
