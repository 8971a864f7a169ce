//! The mathematical model of BLAKE2b (RFC 7693), on sequences of words and
//! bytes. Everything here is a definition; the executable code is proved
//! against it.

use vstd::prelude::*;

verus! {

/// 2^64, the modulus of word arithmetic.
pub open spec fn word_modulus() -> int {
    0x1_0000_0000_0000_0000int
}

/// Addition of two 64-bit words modulo 2^64.
pub open spec fn add64(x: u64, y: u64) -> u64 {
    ((x + y) % word_modulus()) as u64
}

/// Right rotation of a 64-bit word by `n` bits, `0 < n < 64`.
pub open spec fn rotr64(x: u64, n: u64) -> u64 {
    (x >> n) | (x << ((64 - n) as u64))
}

/// Initialization vector, RFC 7693 section 2.6: the first eight fractional
/// parts of the square roots of the first eight primes.
pub const IV: [u64; 8] = [
    0x6a09_e667_f3bc_c908,
    0xbb67_ae85_84ca_a73b,
    0x3c6e_f372_fe94_f82b,
    0xa54f_f53a_5f1d_36f1,
    0x510e_527f_ade6_82d1,
    0x9b05_688c_2b3e_6c1f,
    0x1f83_d9ab_fb41_bd6b,
    0x5be0_cd19_137e_2179,
];

/// Message word permutation, RFC 7693 section 2.7. Rounds 10 and 11 repeat
/// rows 0 and 1: BLAKE2b has twelve rounds over ten distinct permutations.
pub const SIGMA: [[usize; 16]; 12] = [
    [0, 1, 2, 3, 4, 5, 6, 7, 8, 9, 10, 11, 12, 13, 14, 15],
    [14, 10, 4, 8, 9, 15, 13, 6, 1, 12, 0, 2, 11, 7, 5, 3],
    [11, 8, 12, 0, 5, 2, 15, 13, 10, 14, 3, 6, 7, 1, 9, 4],
    [7, 9, 3, 1, 13, 12, 11, 14, 2, 6, 5, 10, 4, 0, 15, 8],
    [9, 0, 5, 7, 2, 4, 10, 15, 14, 1, 11, 12, 6, 8, 3, 13],
    [2, 12, 6, 10, 0, 11, 8, 3, 4, 13, 7, 5, 15, 14, 1, 9],
    [12, 5, 1, 15, 14, 13, 4, 10, 0, 7, 6, 3, 9, 2, 8, 11],
    [13, 11, 7, 14, 12, 1, 3, 9, 5, 0, 15, 4, 8, 6, 2, 10],
    [6, 15, 14, 9, 11, 3, 0, 8, 12, 2, 13, 7, 1, 4, 10, 5],
    [10, 2, 8, 4, 7, 6, 1, 5, 15, 11, 9, 14, 3, 12, 13, 0],
    [0, 1, 2, 3, 4, 5, 6, 7, 8, 9, 10, 11, 12, 13, 14, 15],
    [14, 10, 4, 8, 9, 15, 13, 6, 1, 12, 0, 2, 11, 7, 5, 3],
];

/// Every entry of the schedule indexes one of the sixteen message words.
pub proof fn lemma_sigma_bounded()
    ensures
        forall|r: int, i: int| 0 <= r < 12 && 0 <= i < 16 ==> #[trigger] SIGMA[r][i] < 16,
{
}

/// The mixing function G, RFC 7693 section 3.1, on a working vector of
/// sixteen words.
#[verifier::opaque]
pub open spec fn mix(v: Seq<u64>, a: int, b: int, c: int, d: int, x: u64, y: u64) -> Seq<u64> {
    let v1 = v.update(a, add64(add64(v[a], v[b]), x));
    let v2 = v1.update(d, rotr64(v1[d] ^ v1[a], 32));
    let v3 = v2.update(c, add64(v2[c], v2[d]));
    let v4 = v3.update(b, rotr64(v3[b] ^ v3[c], 24));
    let v5 = v4.update(a, add64(add64(v4[a], v4[b]), y));
    let v6 = v5.update(d, rotr64(v5[d] ^ v5[a], 16));
    let v7 = v6.update(c, add64(v6[c], v6[d]));
    v7.update(b, rotr64(v7[b] ^ v7[c], 63))
}

/// One round: G on the four columns, then on the four diagonals, with the
/// message words chosen by the permutation `s`.
#[verifier::opaque]
pub open spec fn round(v: Seq<u64>, m: Seq<u64>, s: Seq<usize>) -> Seq<u64> {
    let v1 = mix(v, 0, 4, 8, 12, m[s[0] as int], m[s[1] as int]);
    let v2 = mix(v1, 1, 5, 9, 13, m[s[2] as int], m[s[3] as int]);
    let v3 = mix(v2, 2, 6, 10, 14, m[s[4] as int], m[s[5] as int]);
    let v4 = mix(v3, 3, 7, 11, 15, m[s[6] as int], m[s[7] as int]);
    let v5 = mix(v4, 0, 5, 10, 15, m[s[8] as int], m[s[9] as int]);
    let v6 = mix(v5, 1, 6, 11, 12, m[s[10] as int], m[s[11] as int]);
    let v7 = mix(v6, 2, 7, 8, 13, m[s[12] as int], m[s[13] as int]);
    mix(v7, 3, 4, 9, 14, m[s[14] as int], m[s[15] as int])
}

/// The first `n` rounds, round `r` using schedule row `r`.
pub open spec fn rounds(v: Seq<u64>, m: Seq<u64>, n: nat) -> Seq<u64>
    decreases n,
{
    if n == 0 {
        v
    } else {
        round(rounds(v, m, (n - 1) as nat), m, SIGMA[n - 1]@)
    }
}

/// The all-ones word that marks the final block.
pub open spec fn final_flag(last: bool) -> u64 {
    if last {
        0xffff_ffff_ffff_ffffu64
    } else {
        0u64
    }
}

/// The working vector at the start of a compression: the chaining value,
/// then the initialization vector with the counter and the final flag
/// mixed in.
pub open spec fn init_vector(h: Seq<u64>, t_lo: u64, t_hi: u64, last: bool) -> Seq<u64> {
    h + seq![
        IV[0],
        IV[1],
        IV[2],
        IV[3],
        IV[4] ^ t_lo,
        IV[5] ^ t_hi,
        IV[6] ^ final_flag(last),
        IV[7],
    ]
}

/// The compression function F, RFC 7693 section 3.2: chaining value `h`
/// (eight words), message block `m` (sixteen words), byte counter split into
/// its low and high words, and the final-block flag.
#[verifier::opaque]
pub open spec fn compress(h: Seq<u64>, m: Seq<u64>, t_lo: u64, t_hi: u64, last: bool) -> Seq<u64> {
    let v = rounds(init_vector(h, t_lo, t_hi, last), m, 12);
    Seq::new(8, |i: int| h[i] ^ v[i] ^ v[i + 8])
}

/// The little-endian 64-bit word at byte offset `off` of `b`.
pub open spec fn load64(b: Seq<u8>, off: int) -> u64 {
    (b[off] as u64) | (b[off + 1] as u64) << 8 | (b[off + 2] as u64) << 16 | (b[off + 3] as u64)
        << 24 | (b[off + 4] as u64) << 32 | (b[off + 5] as u64) << 40 | (b[off + 6] as u64)
        << 48 | (b[off + 7] as u64) << 56
}

/// A 128-byte block read as sixteen little-endian words.
pub open spec fn block_words(b: Seq<u8>) -> Seq<u64> {
    Seq::new(16, |i: int| load64(b, 8 * i))
}

} // verus!

verus! {

/// 2^128, the modulus of the byte counter.
pub open spec fn counter_modulus() -> int {
    0x1_0000_0000_0000_0000_0000_0000_0000_0000int
}

/// The low word of a byte count, as the counter holds it.
pub open spec fn counter_lo(c: int) -> u64 {
    (c % word_modulus()) as u64
}

/// The high word of a byte count, as the counter holds it.
pub open spec fn counter_hi(c: int) -> u64 {
    ((c / word_modulus()) % word_modulus()) as u64
}

/// The value that a `[low, high]` counter pair holds.
pub open spec fn counter_value(t: Seq<u64>) -> int {
    t[0] + t[1] * word_modulus()
}

/// `b` followed by zero bytes up to length `len`.
pub open spec fn zero_pad(b: Seq<u8>, len: nat) -> Seq<u8> {
    b + Seq::new((len - b.len()) as nat, |i: int| 0u8)
}

/// The chaining value after compressing the first `n` blocks of `data`, each
/// as a non-final block whose counter counts the bytes up to its end.
pub open spec fn chain(h: Seq<u64>, data: Seq<u8>, n: nat) -> Seq<u64>
    decreases n,
{
    if n == 0 {
        h
    } else {
        let k = (n - 1) as nat;
        compress(
            chain(h, data, k),
            block_words(data.subrange(128 * k as int, 128 * n as int)),
            counter_lo(128 * n as int),
            counter_hi(128 * n as int),
            false,
        )
    }
}

/// Number of blocks of `n` bytes of data that are compressed before
/// finalization: all of them but the last, which may be partial or full.
pub open spec fn full_blocks(n: nat) -> nat {
    if n == 0 {
        0
    } else {
        ((n - 1) / 128) as nat
    }
}

/// Bytes of `n` bytes of data left for the final block: 0 for no data,
/// otherwise 1 to 128.
pub open spec fn pending_len(n: nat) -> nat {
    (n - 128 * full_blocks(n)) as nat
}

/// The first block of a keyed hash: the key, zero-padded to a block. Empty
/// for an unkeyed hash.
pub open spec fn key_block(key: Seq<u8>) -> Seq<u8> {
    if key.len() == 0 {
        Seq::empty()
    } else {
        zero_pad(key, 128)
    }
}

/// What a hash is configured with: the fields of the parameter block.
pub ghost struct ParamsView {
    pub hash_length: nat,
    pub key_length: nat,
    pub salt: Seq<u8>,
    pub personal: Seq<u8>,
}

impl ParamsView {
    /// The ranges the fields can hold.
    pub open spec fn wf(self) -> bool {
        &&& 1 <= self.hash_length <= 64
        &&& self.key_length <= 64
        &&& self.salt.len() == 16
        &&& self.personal.len() == 16
    }

    /// The 64-byte parameter block, RFC 7693 section 2.5, for sequential
    /// mode: digest length, key length, fanout 1, depth 1, zero leaf length,
    /// node offset, node depth, inner length and reserved bytes, then salt and
    /// personalization.
    pub open spec fn param_block(self) -> Seq<u8> {
        seq![self.hash_length as u8, self.key_length as u8, 1u8, 1u8] + Seq::new(
            28,
            |i: int| 0u8,
        ) + self.salt + self.personal
    }

    /// The chaining value before any block: the initialization vector xored
    /// with the parameter block read as eight little-endian words.
    pub open spec fn initial_chain(self) -> Seq<u64> {
        Seq::new(8, |i: int| IV[i] ^ load64(self.param_block(), 8 * i))
    }
}

/// Sequential-mode defaults: a 64-byte digest, no key, zero salt and
/// personalization.
pub open spec fn default_params() -> ParamsView {
    ParamsView {
        hash_length: 64,
        key_length: 0,
        salt: Seq::new(16, |i: int| 0u8),
        personal: Seq::new(16, |i: int| 0u8),
    }
}

/// A hashing computation in progress: the chaining value it started from,
/// its digest length, its key, and the message supplied so far.
pub ghost struct StateView {
    pub start: Seq<u64>,
    pub hash_length: nat,
    pub key: Seq<u8>,
    pub message: Seq<u8>,
}

impl ParamsView {
    /// The computation that these parameters and `key` start: from the
    /// initial chaining value, with no message yet.
    pub open spec fn start_state(self, key: Seq<u8>) -> StateView {
        StateView {
            start: self.initial_chain(),
            hash_length: self.hash_length,
            key: key,
            message: Seq::empty(),
        }
    }
}

impl StateView {
    /// Eight starting words, a digest length of 1 to 64, and a key that fits
    /// in one block.
    pub open spec fn wf(self) -> bool {
        &&& self.start.len() == 8
        &&& 1 <= self.hash_length <= 64
        &&& self.key.len() <= 64
    }

    /// Everything that enters the compression function, in order: the key
    /// block, then the message.
    pub open spec fn data(self) -> Seq<u8> {
        key_block(self.key) + self.message
    }

    /// Blocks compressed so far: every whole block of the data that more
    /// input has followed.
    pub open spec fn compressed_blocks(self) -> nat {
        full_blocks(self.data().len())
    }

    /// Bytes compressed so far.
    pub open spec fn compressed_bytes(self) -> nat {
        128 * self.compressed_blocks()
    }

    /// Bytes held back for the final block.
    pub open spec fn pending(self) -> nat {
        pending_len(self.data().len())
    }

    /// The chaining value once the compressed blocks are absorbed.
    pub open spec fn chaining_value(self) -> Seq<u64> {
        chain(self.start, self.data(), self.compressed_blocks())
    }

    /// The pending bytes: the data after its compressed blocks.
    pub open spec fn pending_bytes(self) -> Seq<u8> {
        self.data().subrange(self.compressed_bytes() as int, self.data().len() as int)
    }

    /// The same computation with `input` appended to the message.
    pub open spec fn append(self, input: Seq<u8>) -> StateView {
        StateView { message: self.message + input, ..self }
    }
}

/// Eight words as their 64 little-endian bytes.
pub open spec fn words_to_bytes(h: Seq<u64>) -> Seq<u8> {
    Seq::new(64, |i: int| (h[i / 8] >> (8 * (i % 8)) as u64) as u8)
}

/// The chaining value after the final block: the pending bytes zero-padded,
/// compressed with the final flag and a counter of every byte absorbed.
pub open spec fn final_chain(s: StateView) -> Seq<u64> {
    let total = s.data().len() as int;
    compress(
        s.chaining_value(),
        block_words(zero_pad(s.pending_bytes(), 128)),
        counter_lo(total),
        counter_hi(total),
        true,
    )
}

/// The BLAKE2b digest of the computation `s`: the first `hash_length` bytes
/// of the final chaining value.
pub open spec fn digest(s: StateView) -> Seq<u8> {
    words_to_bytes(final_chain(s)).subrange(0, s.hash_length as int)
}

} // verus!

verus! {

/// The chaining value after `n` blocks depends only on the first `n` blocks
/// of the data.
pub proof fn lemma_chain_prefix(h: Seq<u64>, data: Seq<u8>, extra: Seq<u8>, n: nat)
    requires
        128 * n <= data.len(),
    ensures
        chain(h, data + extra, n) == chain(h, data, n),
    decreases n,
{
    if n > 0 {
        let k = (n - 1) as nat;
        lemma_chain_prefix(h, data, extra, k);
        assert((data + extra).subrange(128 * k as int, 128 * n as int) =~= data.subrange(
            128 * k as int,
            128 * n as int,
        ));
    }
}

/// Data of `128 * c + r` bytes, `1 <= r <= 128`, has `c` whole blocks before
/// its last one.
pub proof fn lemma_full_blocks(c: nat, r: nat)
    requires
        1 <= r <= 128,
    ensures
        full_blocks(128 * c + r) == c,
        pending_len(128 * c + r) == r,
{
    assert((128 * c + r - 1) / 128 == c) by (nonlinear_arith)
        requires
            1 <= r <= 128,
    ;
}

/// At most one block, and at least one byte of non-empty data, is held
/// back.
pub proof fn lemma_pending_bounds(n: nat)
    ensures
        pending_len(n) <= 128,
        n > 0 ==> pending_len(n) >= 1,
        n == 0 ==> pending_len(n) == 0,
        128 * full_blocks(n) + pending_len(n) == n,
{
    if n > 0 {
        let q = ((n - 1) / 128) as nat;
        assert(128 * q <= n - 1 < 128 * q + 128) by (nonlinear_arith)
            requires
                q == (n - 1) / 128,
                n >= 1,
        ;
    }
}

/// Adding `a` to a `[low, high]` counter with a carry into the high word is
/// addition modulo 2^128.
pub proof fn lemma_counter_add(lo: u64, hi: u64, a: u64, lo2: u64, hi2: u64)
    requires
        lo2 == add64(lo, a),
        hi2 == add64(hi, if lo2 < a { 1u64 } else { 0u64 }),
    ensures
        lo2 + hi2 * word_modulus() == (lo + hi * word_modulus() + a) % counter_modulus(),
{
    let m = word_modulus();
    let v = lo + hi * m + a;
    if lo + a < m {
        assert(lo2 == lo + a);
        assert(hi2 == hi);
        assert(0 <= v < counter_modulus());
        vstd::arithmetic::div_mod::lemma_small_mod(v as nat, counter_modulus() as nat);
    } else {
        assert(lo2 == lo + a - m);
        assert(lo2 < a);
        if hi + 1 < m {
            assert(hi2 == hi + 1);
            assert(0 <= v < counter_modulus());
            vstd::arithmetic::div_mod::lemma_small_mod(v as nat, counter_modulus() as nat);
        } else {
            assert(hi2 == 0);
            assert(v == lo2 + counter_modulus());
            vstd::arithmetic::div_mod::lemma_fundamental_div_mod_converse(
                v,
                counter_modulus(),
                1,
                lo2 as int,
            );
        }
    }
}

/// A counter holding `c` modulo 2^128 holds the low and high words of `c`.
pub proof fn lemma_counter_words(c: nat, lo: u64, hi: u64)
    requires
        lo + hi * word_modulus() == (c as int) % counter_modulus(),
    ensures
        lo == counter_lo(c as int),
        hi == counter_hi(c as int),
{
    let m = word_modulus();
    vstd::arithmetic::div_mod::lemma_mod_breakdown(c as int, m, m);
    assert(m * m == counter_modulus());
    let q = (c as int / m) % m;
    let r = c as int % m;
    vstd::arithmetic::div_mod::lemma_mod_pos_bound(c as int / m, m);
    vstd::arithmetic::div_mod::lemma_mod_pos_bound(c as int, m);
    assert(lo + hi * m == q * m + r);
    vstd::arithmetic::div_mod::lemma_fundamental_div_mod_converse(lo + hi * m, m, hi as int, lo as int);
    vstd::arithmetic::div_mod::lemma_fundamental_div_mod_converse(q * m + r, m, q, r);
}

} // verus!
