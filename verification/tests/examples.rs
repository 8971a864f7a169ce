//! The usage examples of the crate's documentation, as tests.

#[test]
fn example_one_message() {
    let hash = uniblake::Params::new()
        .hash_length(32)
        .to_state()
        .update(b"abc")
        .finalize();
    assert_eq!(hash.as_bytes().len(), 32);
}

#[test]
fn example_shared_prefix() {
    let prefix = [7u8; 140];
    let state = uniblake::Params::new()
        .hash_length(32)
        .personal(b"my-app-v1")
        .to_state()
        .update_owned(&prefix);

    // The prefix is absorbed once; each tail continues from it.
    let a = state.clone().update_owned(&0u32.to_le_bytes()).finalize();
    let b = state.clone().update_owned(&1u32.to_le_bytes()).finalize();
    assert_ne!(a, b);
}

#[test]
fn example_personalized_params() {
    let h = uniblake::Params::new()
        .hash_length(32)
        .personal(b"ZcashBlockCommit")
        .to_state()
        .update(b"data")
        .finalize();
    assert_eq!(h.len(), 32);
}

#[test]
fn example_prefix_state() {
    let base = uniblake::Params::new()
        .hash_length(32)
        .to_state()
        .update_owned(&[7u8; 140]);
    let a = base.clone().update_owned(&0u32.to_le_bytes()).finalize();
    let b = base.clone().update_owned(&1u32.to_le_bytes()).finalize();
    assert_ne!(a, b);
}
