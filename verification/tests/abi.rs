//! Size invariance of the state: every field is fixed-width and
//! fixed-alignment, so a state has the same size on every target.

const _: () = assert!(core::mem::size_of::<uniblake::State>() == 216);

#[test]
fn state_size_is_abi_invariant() {
    assert_eq!(core::mem::size_of::<uniblake::State>(), 216);
}

#[test]
fn state_alignment_is_at_least_word() {
    assert!(core::mem::align_of::<uniblake::State>() >= 4);
}
