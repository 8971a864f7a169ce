//! The BLAKE2b compression function (RFC 7693 section 3.2), proved equal to
//! the model in `spec`.

use vstd::prelude::*;
use crate::spec::{self, IV, SIGMA};

verus! {

/// Right rotation by `n` bits.
fn rotr(x: u64, n: u64) -> (r: u64)
    requires
        0 < n < 64,
    ensures
        r == spec::rotr64(x, n),
{
    (x >> n) | (x << (64 - n))
}

/// Addition modulo 2^64.
fn wadd(x: u64, y: u64) -> (r: u64)
    ensures
        r == spec::add64(x, y),
{
    x.wrapping_add(y)
}

/// The G mixing function, RFC 7693 section 3.1.
fn g(v: &mut [u64; 16], a: usize, b: usize, c: usize, d: usize, x: u64, y: u64)
    requires
        a < 16,
        b < 16,
        c < 16,
        d < 16,
    ensures
        final(v)@ == spec::mix(old(v)@, a as int, b as int, c as int, d as int, x, y),
{
    proof {
        reveal(spec::mix);
    }
    v[a] = wadd(wadd(v[a], v[b]), x);
    v[d] = rotr(v[d] ^ v[a], 32);
    v[c] = wadd(v[c], v[d]);
    v[b] = rotr(v[b] ^ v[c], 24);
    v[a] = wadd(wadd(v[a], v[b]), y);
    v[d] = rotr(v[d] ^ v[a], 16);
    v[c] = wadd(v[c], v[d]);
    v[b] = rotr(v[b] ^ v[c], 63);
}

/// One round over the working vector, with schedule row `s`.
fn round(v: &mut [u64; 16], m: &[u64; 16], s: &[usize; 16])
    requires
        forall|i: int| 0 <= i < 16 ==> #[trigger] s[i] < 16,
    ensures
        final(v)@ == spec::round(old(v)@, m@, s@),
{
    proof {
        reveal(spec::round);
    }
    g(v, 0, 4, 8, 12, m[s[0]], m[s[1]]);
    g(v, 1, 5, 9, 13, m[s[2]], m[s[3]]);
    g(v, 2, 6, 10, 14, m[s[4]], m[s[5]]);
    g(v, 3, 7, 11, 15, m[s[6]], m[s[7]]);
    g(v, 0, 5, 10, 15, m[s[8]], m[s[9]]);
    g(v, 1, 6, 11, 12, m[s[10]], m[s[11]]);
    g(v, 2, 7, 8, 13, m[s[12]], m[s[13]]);
    g(v, 3, 4, 9, 14, m[s[14]], m[s[15]]);
}

/// The little-endian word at byte offset `off` of `block`.
pub(crate) fn load64(block: &[u8], off: usize) -> (w: u64)
    requires
        off + 8 <= block@.len(),
    ensures
        w == spec::load64(block@, off as int),
{
    (block[off] as u64) | (block[off + 1] as u64) << 8 | (block[off + 2] as u64) << 16 | (block[off
        + 3] as u64) << 24 | (block[off + 4] as u64) << 32 | (block[off + 5] as u64) << 40 | (block[off
        + 6] as u64) << 48 | (block[off + 7] as u64) << 56
}

/// Compress one 128-byte block into `h`.
///
/// `t` is the byte counter *including* this block, as `[low, high]` words,
/// and `last` sets the finalization flag; both are the caller's to set,
/// because finalization compresses a block whose counter must not advance.
/// Every call adds one to the caller's tally of compressions.
pub(crate) fn compress(
    h: &mut [u64; 8],
    block: &[u8; 128],
    t: [u64; 2],
    last: bool,
    calls: &mut Ghost<nat>,
)
    ensures
        final(h)@ == spec::compress(old(h)@, spec::block_words(block@), t[0], t[1], last),
        final(calls)@ == old(calls)@ + 1,
{
    let mut m = [0u64; 16];
    for i in 0..16
        invariant
            forall|j: int| 0 <= j < i ==> m[j] == spec::load64(block@, 8 * j),
    {
        m[i] = load64(block.as_slice(), 8 * i);
    }
    assert(m@ == spec::block_words(block@));

    let last_mask: u64 = if last { 0xffff_ffff_ffff_ffff } else { 0 };
    let mut v = [
        h[0],
        h[1],
        h[2],
        h[3],
        h[4],
        h[5],
        h[6],
        h[7],
        IV[0],
        IV[1],
        IV[2],
        IV[3],
        IV[4] ^ t[0],
        IV[5] ^ t[1],
        IV[6] ^ last_mask,
        IV[7],
    ];
    let ghost v0 = v@;
    assert(v0 == spec::init_vector(old(h)@, t[0], t[1], last));

    proof { spec::lemma_sigma_bounded(); }
    for r in 0..12
        invariant
            v@ == spec::rounds(v0, m@, r as nat),
            forall|q: int, i: int| 0 <= q < 12 && 0 <= i < 16 ==> #[trigger] SIGMA[q][i] < 16,
    {
        round(&mut v, &m, &SIGMA[r]);
    }

    let ghost hv = h@;
    for i in 0..8
        invariant
            forall|j: int| 0 <= j < i ==> h[j] == hv[j] ^ v[j] ^ v[j + 8],
            forall|j: int| i <= j < 8 ==> h[j] == hv[j],
    {
        h[i] = h[i] ^ v[i] ^ v[i + 8];
    }
    assert(h@ == spec::compress(hv, m@, t[0], t[1], last)) by {
        reveal(spec::compress);
    }
    *calls = Ghost(calls@ + 1);
}

} // verus!
