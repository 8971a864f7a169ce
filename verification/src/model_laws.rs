//! What each step of the model does, stated by its effect on its inputs:
//! the working vector, the block chain, the key block, zero padding, the
//! parameter block, the byte order of words, the counter, the message
//! schedule, the mixing function and rotation.

use vstd::prelude::*;
use crate::spec::{self, ParamsView, IV, SIGMA};

verus! {

/// The working vector keeps the chaining value in its first half, and from
/// its second half the full 64-bit low and high counter words and the
/// final flag can be read back by undoing the xor with the initialization
/// vector. So two compressions whose counters or flags differ in any bit
/// start from different working vectors.
pub proof fn law_working_vector(h: Seq<u64>, lo: u64, hi: u64, last: bool)
    requires
        h.len() == 8,
    ensures
        spec::init_vector(h, lo, hi, last).len() == 16,
        spec::init_vector(h, lo, hi, last).subrange(0, 8) == h,
        spec::init_vector(h, lo, hi, last)[12] ^ IV[4] == lo,
        spec::init_vector(h, lo, hi, last)[13] ^ IV[5] == hi,
        spec::init_vector(h, lo, hi, last)[14] ^ IV[6] == (if last {
            0xffff_ffff_ffff_ffffu64
        } else {
            0u64
        }),
        spec::init_vector(h, lo, hi, last)[8] == IV[0],
        spec::init_vector(h, lo, hi, last)[9] == IV[1],
        spec::init_vector(h, lo, hi, last)[10] == IV[2],
        spec::init_vector(h, lo, hi, last)[11] == IV[3],
        spec::init_vector(h, lo, hi, last)[15] == IV[7],
{
    let v = spec::init_vector(h, lo, hi, last);
    assert(v.subrange(0, 8) =~= h);
    let (a, b, c) = (IV[4], IV[5], IV[6]);
    assert((a ^ lo) ^ a == lo) by (bit_vector);
    assert((b ^ hi) ^ b == hi) by (bit_vector);
    assert((c ^ 0xffff_ffff_ffff_ffffu64) ^ c == 0xffff_ffff_ffff_ffffu64) by (bit_vector);
    assert((c ^ 0u64) ^ c == 0u64) by (bit_vector);
}

/// Distinct counters or flags give distinct working vectors.
pub proof fn law_working_vector_injective(
    h: Seq<u64>,
    lo1: u64,
    hi1: u64,
    last1: bool,
    lo2: u64,
    hi2: u64,
    last2: bool,
)
    requires
        h.len() == 8,
        spec::init_vector(h, lo1, hi1, last1) == spec::init_vector(h, lo2, hi2, last2),
    ensures
        lo1 == lo2,
        hi1 == hi2,
        last1 == last2,
{
    law_working_vector(h, lo1, hi1, last1);
    law_working_vector(h, lo2, hi2, last2);
}

/// Every block counts: the chaining value after `n` blocks is the
/// compression of the chaining value after `n - 1` blocks with block `n`,
/// as a non-final block whose counter is the `128 * n` bytes up to its end,
/// whatever the block holds.
pub proof fn law_chain_step(h: Seq<u64>, data: Seq<u8>, n: nat)
    requires
        1 <= n,
        128 * n <= data.len(),
    ensures
        spec::chain(h, data, n) == spec::compress(
            spec::chain(h, data, (n - 1) as nat),
            spec::block_words(data.subrange(128 * (n - 1), 128 * n as int)),
            spec::counter_lo(128 * n as int),
            spec::counter_hi(128 * n as int),
            false,
        ),
        spec::chain(h, data, 0) == h,
{
}

/// Zero padding keeps every byte given, whatever its value, and fills the
/// rest of the field with zeros.
pub proof fn law_zero_pad(b: Seq<u8>, len: nat)
    requires
        b.len() <= len,
    ensures
        spec::zero_pad(b, len).len() == len,
        spec::zero_pad(b, len).subrange(0, b.len() as int) == b,
        forall|i: int| 0 <= i < b.len() ==> #[trigger] spec::zero_pad(b, len)[i] == b[i],
        forall|i: int| b.len() <= i < len ==> #[trigger] spec::zero_pad(b, len)[i] == 0u8,
{
    assert(spec::zero_pad(b, len).subrange(0, b.len() as int) =~= b);
}

/// The key block of a non-empty key is one block: every key byte, whatever
/// its value, then zeros. An empty key has no block.
pub proof fn law_key_block(key: Seq<u8>)
    requires
        key.len() <= 128,
    ensures
        key.len() == 0 ==> spec::key_block(key).len() == 0,
        key.len() > 0 ==> spec::key_block(key).len() == 128,
        key.len() > 0 ==> spec::key_block(key).subrange(0, key.len() as int) == key,
        key.len() > 0 ==> forall|i: int|
            key.len() <= i < 128 ==> #[trigger] spec::key_block(key)[i] == 0u8,
{
    if key.len() > 0 {
        law_zero_pad(key, 128);
    }
}

/// The parameter block of sequential mode, byte by byte: digest length, key
/// length, fanout 1, depth 1, then 28 zero bytes (leaf length, node offset,
/// node depth, inner length, reserved), then the salt and the
/// personalization.
pub proof fn law_param_block(p: ParamsView)
    requires
        p.wf(),
    ensures
        p.param_block().len() == 64,
        p.param_block()[0] == p.hash_length,
        p.param_block()[1] == p.key_length,
        p.param_block()[2] == 1,
        p.param_block()[3] == 1,
        forall|i: int| 4 <= i < 32 ==> #[trigger] p.param_block()[i] == 0u8,
        p.param_block().subrange(32, 48) == p.salt,
        p.param_block().subrange(48, 64) == p.personal,
{
    assert(p.param_block().subrange(32, 48) =~= p.salt);
    assert(p.param_block().subrange(48, 64) =~= p.personal);
}

/// A word is read little-endian: the byte at offset `off + j` has weight
/// `256^j`.
pub proof fn law_load64_little_endian(b: Seq<u8>, off: int)
    requires
        0 <= off,
        off + 8 <= b.len(),
    ensures
        spec::load64(b, off) as int == b[off] + 0x100 * b[off + 1] + 0x1_0000 * b[off + 2]
            + 0x100_0000 * b[off + 3] + 0x1_0000_0000 * b[off + 4] + 0x100_0000_0000 * b[off
            + 5] + 0x1_0000_0000_0000 * b[off + 6] + 0x100_0000_0000_0000 * b[off + 7],
{
    let (b0, b1, b2, b3, b4, b5, b6, b7) = (
        b[off],
        b[off + 1],
        b[off + 2],
        b[off + 3],
        b[off + 4],
        b[off + 5],
        b[off + 6],
        b[off + 7],
    );
    assert(((b0 as u64) | (b1 as u64) << 8 | (b2 as u64) << 16 | (b3 as u64) << 24 | (b4 as u64)
        << 32 | (b5 as u64) << 40 | (b6 as u64) << 48 | (b7 as u64) << 56) == b0 as u64 + 0x100u64
        * b1 as u64 + 0x1_0000u64 * b2 as u64 + 0x100_0000u64 * b3 as u64 + 0x1_0000_0000u64
        * b4 as u64 + 0x100_0000_0000u64 * b5 as u64 + 0x1_0000_0000_0000u64 * b6 as u64
        + 0x100_0000_0000_0000u64 * b7 as u64) by (bit_vector);
}

/// Writing words out as bytes and reading them back gives the same words:
/// the digest bytes are the little-endian encoding of the final chaining
/// value.
pub proof fn law_words_to_bytes(h: Seq<u64>)
    requires
        h.len() == 8,
    ensures
        spec::words_to_bytes(h).len() == 64,
        forall|i: int| 0 <= i < 8 ==> #[trigger] spec::load64(spec::words_to_bytes(h), 8 * i)
            == h[i],
{
    let b = spec::words_to_bytes(h);
    assert forall|i: int| 0 <= i < 8 implies #[trigger] spec::load64(b, 8 * i) == h[i] by {
        let w = h[i];
        assert((8 * i + 0) / 8 == i && (8 * i + 0) % 8 == 0);
        assert((8 * i + 1) / 8 == i && (8 * i + 1) % 8 == 1);
        assert((8 * i + 2) / 8 == i && (8 * i + 2) % 8 == 2);
        assert((8 * i + 3) / 8 == i && (8 * i + 3) % 8 == 3);
        assert((8 * i + 4) / 8 == i && (8 * i + 4) % 8 == 4);
        assert((8 * i + 5) / 8 == i && (8 * i + 5) % 8 == 5);
        assert((8 * i + 6) / 8 == i && (8 * i + 6) % 8 == 6);
        assert((8 * i + 7) / 8 == i && (8 * i + 7) % 8 == 7);
        assert(b[8 * i] == (w >> 0u64) as u8);
        assert(b[8 * i + 1] == (w >> 8u64) as u8);
        assert(b[8 * i + 2] == (w >> 16u64) as u8);
        assert(b[8 * i + 3] == (w >> 24u64) as u8);
        assert(b[8 * i + 4] == (w >> 32u64) as u8);
        assert(b[8 * i + 5] == (w >> 40u64) as u8);
        assert(b[8 * i + 6] == (w >> 48u64) as u8);
        assert(b[8 * i + 7] == (w >> 56u64) as u8);
        assert((((w >> 0u64) as u8) as u64) | (((w >> 8u64) as u8) as u64) << 8 | (((w
            >> 16u64) as u8) as u64) << 16 | (((w >> 24u64) as u8) as u64) << 24 | (((w
            >> 32u64) as u8) as u64) << 32 | (((w >> 40u64) as u8) as u64) << 40 | (((w
            >> 48u64) as u8) as u64) << 48 | (((w >> 56u64) as u8) as u64) << 56 == w)
            by (bit_vector);
    }
}

/// The counter words hold the byte count modulo 2^128: the low word is its
/// value modulo 2^64 and the high word the rest.
pub proof fn law_counter_words(c: nat)
    ensures
        spec::counter_lo(c as int) + spec::counter_hi(c as int) * spec::word_modulus() == (c as int)
            % spec::counter_modulus(),
{
    let m = spec::word_modulus();
    vstd::arithmetic::div_mod::lemma_mod_breakdown(c as int, m, m);
    vstd::arithmetic::div_mod::lemma_mod_pos_bound(c as int / m, m);
    vstd::arithmetic::div_mod::lemma_mod_pos_bound(c as int, m);
    assert(m * m == spec::counter_modulus());
}

/// The message schedule: round 0 takes the words in order, every row is a
/// permutation of the sixteen message words, and rounds 10 and 11 repeat
/// rounds 0 and 1.
pub proof fn law_sigma()
    ensures
        forall|i: int| 0 <= i < 16 ==> #[trigger] SIGMA[0][i] == i,
        SIGMA[10]@ == SIGMA[0]@,
        SIGMA[11]@ == SIGMA[1]@,
        forall|r: int, i: int, j: int|
            0 <= r < 12 && 0 <= i < j < 16 ==> #[trigger] SIGMA[r][i] != #[trigger] SIGMA[r][j],
{
    assert(SIGMA[10]@ =~= SIGMA[0]@);
    assert(SIGMA[11]@ =~= SIGMA[1]@);
}

/// The mixing function changes only the four words it mixes.
pub proof fn law_mix_frame(v: Seq<u64>, a: int, b: int, c: int, d: int, x: u64, y: u64)
    requires
        v.len() == 16,
        0 <= a < 16,
        0 <= b < 16,
        0 <= c < 16,
        0 <= d < 16,
    ensures
        spec::mix(v, a, b, c, d, x, y).len() == 16,
        forall|i: int|
            0 <= i < 16 && i != a && i != b && i != c && i != d ==> #[trigger] spec::mix(
                v,
                a,
                b,
                c,
                d,
                x,
                y,
            )[i] == v[i],
{
    reveal(spec::mix);
}

/// Rotation loses no bits: rotating right by `n` and then by `64 - n` gives
/// the word back, and every bit lands `n` places lower, cyclically.
pub proof fn law_rotr64(x: u64, n: u64)
    requires
        0 < n < 64,
    ensures
        spec::rotr64(spec::rotr64(x, n), (64 - n) as u64) == x,
        spec::rotr64(x, n) >> ((64 - n) as u64) == x & (((1u64 << n) - 1) as u64),
{
    assert(((((x >> n) | (x << ((64 - n) as u64))) >> ((64 - n) as u64)) | (((x >> n) | (x << ((
    64 - n) as u64))) << ((64 - ((64 - n) as u64)) as u64))) == x) by (bit_vector)
        requires
            0 < n < 64,
    ;
    assert(((x >> n) | (x << ((64 - n) as u64))) >> ((64 - n) as u64) == x & (((1u64 << n) - 1)
        as u64)) by (bit_vector)
        requires
            0 < n < 64,
    ;
}

/// Addition of words is addition modulo 2^64.
pub proof fn law_add64(x: u64, y: u64)
    ensures
        spec::add64(x, y) as int == (x as int + y as int) % spec::word_modulus(),
        spec::add64(x, y) == spec::add64(y, x),
{
}

} // verus!

verus! {

/// Subtraction of words modulo 2^64, the inverse of `add64`.
pub open spec fn sub64(x: u64, y: u64) -> u64 {
    ((x - y) % spec::word_modulus()) as u64
}

/// The RFC 7693 mixing steps run backwards: each addition undone by a
/// subtraction, each rotation right by `n` undone by one by `64 - n`.
pub open spec fn unmix(v: Seq<u64>, a: int, b: int, c: int, d: int, x: u64, y: u64) -> Seq<u64> {
    let v1 = v.update(b, spec::rotr64(v[b], 1) ^ v[c]);
    let v2 = v1.update(c, sub64(v1[c], v1[d]));
    let v3 = v2.update(d, spec::rotr64(v2[d], 48) ^ v2[a]);
    let v4 = v3.update(a, sub64(sub64(v3[a], y), v3[b]));
    let v5 = v4.update(b, spec::rotr64(v4[b], 40) ^ v4[c]);
    let v6 = v5.update(c, sub64(v5[c], v5[d]));
    let v7 = v6.update(d, spec::rotr64(v6[d], 32) ^ v6[a]);
    v7.update(a, sub64(sub64(v7[a], x), v7[b]))
}

/// Undoing a word addition.
proof fn lemma_sub_add(x: u64, y: u64)
    ensures
        sub64(spec::add64(x, y), y) == x,
{
}

/// Undoing a rotation of a word that was xored in.
proof fn lemma_unrotate(p: u64, q: u64, n: u64)
    requires
        0 < n < 64,
    ensures
        spec::rotr64(spec::rotr64(p ^ q, n), (64 - n) as u64) ^ q == p,
{
    law_rotr64(p ^ q, n);
    assert((p ^ q) ^ q == p) by (bit_vector);
}

/// The mixing function G loses nothing: the RFC's eight steps, additions
/// modulo 2^64, xors and rotations right by 32, 24, 16 and 63, are undone by
/// the same steps backwards, so G is a permutation of the working vector
/// for each pair of message words.
pub proof fn law_mix_invertible(v: Seq<u64>, a: int, b: int, c: int, d: int, x: u64, y: u64)
    requires
        v.len() == 16,
        0 <= a < 16,
        0 <= b < 16,
        0 <= c < 16,
        0 <= d < 16,
        a != b && a != c && a != d && b != c && b != d && c != d,
    ensures
        unmix(spec::mix(v, a, b, c, d, x, y), a, b, c, d, x, y) == v,
{
    let v1 = v.update(a, spec::add64(spec::add64(v[a], v[b]), x));
    let v2 = v1.update(d, spec::rotr64(v1[d] ^ v1[a], 32));
    let v3 = v2.update(c, spec::add64(v2[c], v2[d]));
    let v4 = v3.update(b, spec::rotr64(v3[b] ^ v3[c], 24));
    let v5 = v4.update(a, spec::add64(spec::add64(v4[a], v4[b]), y));
    let v6 = v5.update(d, spec::rotr64(v5[d] ^ v5[a], 16));
    let v7 = v6.update(c, spec::add64(v6[c], v6[d]));
    let v8 = v7.update(b, spec::rotr64(v7[b] ^ v7[c], 63));
    assert(spec::mix(v, a, b, c, d, x, y) == v8) by {
        reveal(spec::mix);
    }
    let u1 = v8.update(b, spec::rotr64(v8[b], 1) ^ v8[c]);
    assert(u1 =~= v7) by {
        lemma_unrotate(v7[b], v7[c], 63);
    }
    let u2 = u1.update(c, sub64(u1[c], u1[d]));
    assert(u2 =~= v6) by {
        lemma_sub_add(v6[c], v6[d]);
    }
    let u3 = u2.update(d, spec::rotr64(u2[d], 48) ^ u2[a]);
    assert(u3 =~= v5) by {
        lemma_unrotate(v5[d], v5[a], 16);
    }
    let u4 = u3.update(a, sub64(sub64(u3[a], y), u3[b]));
    assert(u4 =~= v4) by {
        lemma_sub_add(spec::add64(v4[a], v4[b]), y);
        lemma_sub_add(v4[a], v4[b]);
    }
    let u5 = u4.update(b, spec::rotr64(u4[b], 40) ^ u4[c]);
    assert(u5 =~= v3) by {
        lemma_unrotate(v3[b], v3[c], 24);
    }
    let u6 = u5.update(c, sub64(u5[c], u5[d]));
    assert(u6 =~= v2) by {
        lemma_sub_add(v2[c], v2[d]);
    }
    let u7 = u6.update(d, spec::rotr64(u6[d], 32) ^ u6[a]);
    assert(u7 =~= v1) by {
        lemma_unrotate(v1[d], v1[a], 32);
    }
    let u8 = u7.update(a, sub64(sub64(u7[a], x), u7[b]));
    assert(u8 =~= v) by {
        lemma_sub_add(spec::add64(v[a], v[b]), x);
        lemma_sub_add(v[a], v[b]);
    }
    assert(unmix(v8, a, b, c, d, x, y) == u8);
}

/// The compression function runs twelve rounds, round `r` with schedule row
/// `r`, from the working vector, then folds both halves of the result into
/// the chaining value.
pub proof fn law_compress_twelve_rounds(h: Seq<u64>, m: Seq<u64>, lo: u64, hi: u64, last: bool)
    ensures
        ({
            let v0 = spec::init_vector(h, lo, hi, last);
            let v1 = spec::round(v0, m, SIGMA[0]@);
            let v2 = spec::round(v1, m, SIGMA[1]@);
            let v3 = spec::round(v2, m, SIGMA[2]@);
            let v4 = spec::round(v3, m, SIGMA[3]@);
            let v5 = spec::round(v4, m, SIGMA[4]@);
            let v6 = spec::round(v5, m, SIGMA[5]@);
            let v7 = spec::round(v6, m, SIGMA[6]@);
            let v8 = spec::round(v7, m, SIGMA[7]@);
            let v9 = spec::round(v8, m, SIGMA[8]@);
            let v10 = spec::round(v9, m, SIGMA[9]@);
            let v11 = spec::round(v10, m, SIGMA[10]@);
            let w = spec::round(v11, m, SIGMA[11]@);
            &&& spec::compress(h, m, lo, hi, last).len() == 8
            &&& forall|i: int|
                0 <= i < 8 ==> #[trigger] spec::compress(h, m, lo, hi, last)[i] == h[i] ^ w[i]
                    ^ w[i + 8]
        }),
{
    reveal(spec::compress);
    reveal_with_fuel(spec::rounds, 13);
}

} // verus!

verus! {

/// A round mixes the four columns, then the four diagonals, of the 4x4
/// working matrix, feeding mix `k` the message words `s[2k]` and
/// `s[2k + 1]`.
pub proof fn law_round_columns_then_diagonals(v: Seq<u64>, m: Seq<u64>, s: Seq<usize>)
    ensures
        spec::round(v, m, s) == {
            let c1 = spec::mix(v, 0, 4, 8, 12, m[s[0] as int], m[s[1] as int]);
            let c2 = spec::mix(c1, 1, 5, 9, 13, m[s[2] as int], m[s[3] as int]);
            let c3 = spec::mix(c2, 2, 6, 10, 14, m[s[4] as int], m[s[5] as int]);
            let c4 = spec::mix(c3, 3, 7, 11, 15, m[s[6] as int], m[s[7] as int]);
            let d1 = spec::mix(c4, 0, 5, 10, 15, m[s[8] as int], m[s[9] as int]);
            let d2 = spec::mix(d1, 1, 6, 11, 12, m[s[10] as int], m[s[11] as int]);
            let d3 = spec::mix(d2, 2, 7, 8, 13, m[s[12] as int], m[s[13] as int]);
            spec::mix(d3, 3, 4, 9, 14, m[s[14] as int], m[s[15] as int])
        },
{
    reveal(spec::round);
}

/// The starting chaining value is the initialization vector with word `i`
/// of the parameter block xored in: undoing the xor gives back that word.
pub proof fn law_initial_chain_words(p: ParamsView)
    ensures
        p.initial_chain().len() == 8,
        forall|i: int|
            0 <= i < 8 ==> #[trigger] p.initial_chain()[i] ^ IV[i] == spec::load64(
                p.param_block(),
                8 * i,
            ),
{
    assert forall|i: int| 0 <= i < 8 implies #[trigger] p.initial_chain()[i] ^ IV[i]
        == spec::load64(p.param_block(), 8 * i) by {
        let (a, w) = (IV[i], spec::load64(p.param_block(), 8 * i));
        assert((a ^ w) ^ a == w) by (bit_vector);
    }
}

} // verus!
