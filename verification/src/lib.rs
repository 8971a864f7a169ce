//! BLAKE2b with specified eager absorption and a shared-prefix fast path.
//!
//! Hashing one message is the usual three calls: `Params::new()`, a few
//! builder calls and `to_state()`, then `update` and `finalize`. What this
//! crate adds is the repeated case, `H(prefix || 0)`, `H(prefix || 1)`, and so
//! on: whole blocks are compressed as soon as more input follows, so a shared
//! prefix is absorbed once and each digest costs a single compression.
//!
//! Every digest is proved equal to the BLAKE2b model in [`spec`], and the
//! absorption schedule is part of `State`'s contract rather than an
//! implementation accident.

use vstd::prelude::*;

pub mod spec;
mod compress;
mod params;
mod state;
pub mod laws;
pub mod model_laws;

pub use params::Params;
pub use state::State;

verus! {

/// Compression block size in bytes.
pub const BLOCK_BYTES: usize = 128;

/// Largest digest this hash produces.
pub const OUT_BYTES: usize = 64;

/// Largest key.
pub const KEY_BYTES: usize = 64;

/// Salt field width.
pub const SALT_BYTES: usize = 16;

/// Personalization field width.
pub const PERSONAL_BYTES: usize = 16;

/// A finalized digest.
///
/// Comparison is by value and is not constant-time; a digest is public data.
/// Callers comparing a MAC should use a constant-time primitive of their own.
#[derive(Clone, Copy, PartialEq, Eq, Hash, Debug)]
pub struct Hash {
    bytes: [u8; OUT_BYTES],
    // u8, not usize: the length is 1..=64, and a usize here would force
    // 8-byte alignment and pad the type from 65 bytes to 72.
    len: u8,
}

impl View for Hash {
    type V = Seq<u8>;

    /// The digest bytes.
    closed spec fn view(&self) -> Seq<u8> {
        self.bytes@.subrange(0, self.len as int)
    }
}

impl Hash {
    #[verifier::type_invariant]
    closed spec fn length_in_range(self) -> bool {
        1 <= self.len <= 64
    }

    /// All 64 bytes of the final chaining value, of which the digest is the
    /// first `len`. Equality, hashing and `Debug` read all of them.
    pub closed spec fn raw(&self) -> Seq<u8> {
        self.bytes@
    }

    /// The digest bytes, exactly `hash_length` of them.
    pub fn as_bytes(&self) -> (r: &[u8])
        ensures
            r@ == self@,
    {
        proof {
            use_type_invariant(self);
        }
        vstd::slice::slice_subrange(self.bytes.as_slice(), 0, self.len as usize)
    }

    /// The digest length in bytes, 1 to 64.
    pub fn len(&self) -> (r: usize)
        ensures
            r == self@.len(),
            1 <= r <= 64,
    {
        proof {
            use_type_invariant(self);
        }
        self.len as usize
    }

    /// Whether the digest is empty. Never true: lengths are 1..=64.
    pub fn is_empty(&self) -> (r: bool)
        ensures
            r == (self@.len() == 0),
            !r,
    {
        proof {
            use_type_invariant(self);
        }
        self.len == 0
    }

    pub(crate) fn new(bytes: [u8; OUT_BYTES], len: usize) -> (r: Self)
        requires
            1 <= len <= 64,
        ensures
            r@ == bytes@.subrange(0, len as int),
            r.raw() == bytes@,
    {
        Hash { bytes, len: len as u8 }
    }

    /// The digest as a 32-byte array, for a hash configured with
    /// `hash_length(32)`.
    pub fn to_array32(&self) -> (r: [u8; 32])
        requires
            self@.len() == 32,
        ensures
            r@ == self@,
    {
        proof {
            use_type_invariant(self);
        }
        let mut out = [0u8; 32];
        for i in 0..32
            invariant
                self.len == 32,
                forall|j: int| 0 <= j < i ==> out[j] == self.bytes[j],
        {
            out[i] = self.bytes[i];
        }
        assert(out@ =~= self@);
        out
    }

    /// The digest as a 64-byte array, for a hash of the full length.
    pub fn to_array64(&self) -> (r: [u8; 64])
        requires
            self@.len() == 64,
        ensures
            r@ == self@,
    {
        proof {
            use_type_invariant(self);
        }
        assert(self.bytes@ =~= self@);
        self.bytes
    }
}

impl AsRef<[u8]> for Hash {
    fn as_ref(&self) -> (r: &[u8])
        ensures
            r@ == self@,
    {
        self.as_bytes()
    }
}

} // verus!
