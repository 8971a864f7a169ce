//! The BLAKE2b parameter block (RFC 7693 section 2.5).

use vstd::prelude::*;
use crate::compress::load64;
use crate::spec::{self, ParamsView, IV};
use crate::state::State;

verus! {

/// What is being computed, as distinct from the message.
///
/// The parameter block is mixed into the initial state rather than into the
/// message, so two hashes with different personalization start from
/// different chaining values at no per-message cost.
#[derive(Debug)]
pub struct Params {
    // u8: both are bounded by 64, and usize would force 8-byte alignment and
    // pad the type.
    hash_length: u8,
    key_length: u8,
    salt: [u8; 16],
    personal: [u8; 16],
}

impl View for Params {
    type V = ParamsView;

    closed spec fn view(&self) -> ParamsView {
        ParamsView {
            hash_length: self.hash_length as nat,
            key_length: self.key_length as nat,
            salt: self.salt@,
            personal: self.personal@,
        }
    }
}

/// `bytes` zero-padded to a 16-byte field.
fn padded_field(bytes: &[u8]) -> (r: [u8; 16])
    requires
        bytes@.len() <= 16,
    ensures
        r@ == spec::zero_pad(bytes@, 16),
        r@.subrange(0, bytes@.len() as int) == bytes@,
        forall|i: int| bytes@.len() <= i < 16 ==> #[trigger] r@[i] == 0u8,
{
    let mut r = [0u8; 16];
    for i in 0..bytes.len()
        invariant
            bytes@.len() <= 16,
            forall|j: int| 0 <= j < i ==> r[j] == bytes@[j],
            forall|j: int| i <= j < 16 ==> r[j] == 0,
    {
        r[i] = bytes[i];
    }
    assert(r@ =~= spec::zero_pad(bytes@, 16));
    assert(r@.subrange(0, bytes@.len() as int) =~= bytes@);
    r
}

impl Params {
    #[verifier::type_invariant]
    closed spec fn fields_in_range(self) -> bool {
        self@.wf()
    }

    /// Sequential-mode defaults with a 64-byte digest.
    pub fn new() -> (r: Self)
        ensures
            r@ == spec::default_params(),
            r@.wf(),
    {
        let zeros: [u8; 16] = [0; 16];
        assert(zeros@ =~= Seq::new(16, |i: int| 0u8)) by {
            assert(forall|i: int| 0 <= i < 16 ==> zeros@[i] == 0u8);
        }
        let r = Params { hash_length: 64, key_length: 0, salt: zeros, personal: zeros };
        assert(r@ =~= spec::default_params());
        r
    }

    /// Digest length in bytes, 1 to 64. A length outside that range is a
    /// programming error, not a runtime condition, and is not accepted.
    pub fn hash_length(self, n: usize) -> (r: Self)
        requires
            1 <= n <= 64,
        ensures
            r@ == (ParamsView { hash_length: n as nat, ..self@ }),
            r@.wf(),
    {
        proof {
            use_type_invariant(&self);
        }
        Params { hash_length: n as u8, ..self }
    }

    /// Declare a keyed hash of `key_length` bytes, at most 64.
    ///
    /// The key material is supplied to [`Params::to_state_keyed`], not stored
    /// here: BLAKE2b absorbs the key as a zero-padded first block rather than
    /// mixing it into the parameter block, so only its length belongs in these
    /// parameters.
    pub fn key_length(self, key_length: usize) -> (r: Self)
        requires
            key_length <= 64,
        ensures
            r@ == (ParamsView { key_length: key_length as nat, ..self@ }),
            r@.wf(),
    {
        proof {
            use_type_invariant(&self);
        }
        Params { key_length: key_length as u8, ..self }
    }

    /// Salt, up to 16 bytes, zero-padded.
    pub fn salt(self, salt: &[u8]) -> (r: Self)
        requires
            salt@.len() <= 16,
        ensures
            r@ == (ParamsView { salt: spec::zero_pad(salt@, 16), ..self@ }),
            r@.wf(),
            r@.salt.subrange(0, salt@.len() as int) == salt@,
            forall|i: int| salt@.len() <= i < 16 ==> #[trigger] r@.salt[i] == 0u8,
    {
        proof {
            use_type_invariant(&self);
        }
        Params { salt: padded_field(salt), ..self }
    }

    /// Personalization, up to 16 bytes, zero-padded. Domain separation.
    pub fn personal(self, personal: &[u8]) -> (r: Self)
        requires
            personal@.len() <= 16,
        ensures
            r@ == (ParamsView { personal: spec::zero_pad(personal@, 16), ..self@ }),
            r@.wf(),
            r@.personal.subrange(0, personal@.len() as int) == personal@,
            forall|i: int| personal@.len() <= i < 16 ==> #[trigger] r@.personal[i] == 0u8,
    {
        proof {
            use_type_invariant(&self);
        }
        Params { personal: padded_field(personal), ..self }
    }

    /// A streaming state with these parameters absorbed. Only for an unkeyed
    /// hash: with a declared key length, use [`Params::to_state_keyed`].
    pub fn to_state(&self) -> (r: State)
        requires
            self@.key_length == 0,
        ensures
            r@ == self@.start_state(Seq::empty()),
            r@.wf(),
            r.compressions() == 0,
    {
        let r = self.build(&[]);
        assert(r@.key =~= Seq::<u8>::empty());
        assert(r@ =~= self@.start_state(Seq::empty()));
        r
    }

    /// A streaming state keyed with `key`, which must have the declared
    /// length. The zero-padded key is the first block of the data: it is
    /// compressed as soon as message input follows it, and is the final block
    /// of a keyed hash of the empty message.
    pub fn to_state_keyed(&self, key: &[u8]) -> (r: State)
        requires
            key@.len() == self@.key_length,
        ensures
            r@ == self@.start_state(key@),
            r@.wf(),
            r.compressions() == 0,
    {
        self.build(key)
    }

    fn build(&self, key: &[u8]) -> (r: State)
        requires
            key@.len() == self@.key_length,
        ensures
            r@ == self@.start_state(key@),
            r@.wf(),
            r.compressions() == 0,
    {
        proof {
            use_type_invariant(self);
        }
        // Serialize the 64-byte block field by field and xor it in. Building
        // it as bytes keeps the layout explicit and endian-neutral.
        let mut blk = [0u8; 64];
        blk[0] = self.hash_length;
        blk[1] = self.key_length;
        blk[2] = 1;  // fanout
        blk[3] = 1;  // depth
        for i in 0..16
            invariant
                blk[0] == self.hash_length,
                blk[1] == self.key_length,
                blk[2] == 1,
                blk[3] == 1,
                forall|j: int| 4 <= j < 32 ==> blk[j] == 0,
                forall|j: int| 0 <= j < i ==> blk[32 + j] == self.salt[j],
                forall|j: int| 0 <= j < i ==> blk[48 + j] == self.personal[j],
        {
            blk[32 + i] = self.salt[i];
            blk[48 + i] = self.personal[i];
        }
        assert(blk@ =~= self@.param_block());

        let mut h = IV;
        for i in 0..8
            invariant
                blk@ == self@.param_block(),
                forall|j: int| 0 <= j < i ==> h[j] == IV[j] ^ spec::load64(blk@, 8 * j),
                forall|j: int| i <= j < 8 ==> h[j] == IV[j],
        {
            h[i] = h[i] ^ load64(blk.as_slice(), 8 * i);
        }
        assert(h@ =~= self@.initial_chain());

        let mut state = State::from_parts(h, self.hash_length as usize);
        if key.len() > 0 {
            let mut block = [0u8; 128];
            for i in 0..key.len()
                invariant
                    key@.len() <= 64,
                    forall|j: int| 0 <= j < i ==> block[j] == key@[j],
                    forall|j: int| i <= j < 128 ==> block[j] == 0,
            {
                block[i] = key[i];
            }
            assert(block@ =~= spec::key_block(key@));
            state.set_key_block(block, Ghost(key@));
        }
        assert(key@.len() == 0 ==> key@ =~= Seq::<u8>::empty());
        assert(state@ =~= self@.start_state(key@));
        state
    }
}

impl Clone for Params {
    fn clone(&self) -> (r: Self)
        ensures
            r@ == self@,
            r@.wf(),
    {
        proof {
            use_type_invariant(self);
        }
        Params {
            hash_length: self.hash_length,
            key_length: self.key_length,
            salt: self.salt,
            personal: self.personal,
        }
    }
}

impl Default for Params {
    fn default() -> (r: Self)
        ensures
            r@ == spec::default_params(),
            r@.wf(),
    {
        Self::new()
    }
}

} // verus!
