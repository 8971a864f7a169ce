//! Concrete instances of the library's laws and edge cases.

use uniblake::{Params, State};

fn hex(bytes: &[u8]) -> String {
    bytes.iter().map(|b| format!("{b:02x}")).collect()
}

#[test]
fn known_vector_abc() {
    let h = Params::new().to_state().update_owned(b"abc").finalize();
    assert_eq!(
        hex(h.as_bytes()),
        "ba80a53f981c4d0d6a2797b69f12f6e94c212f14685ac4b74b12bb6fdbffa2d1\
         7d87c5392aab792dc252d5de4533cc9518d38aa8dbf1925ab92386edd4009923"
    );
}

#[test]
fn known_vector_empty() {
    let h = State::new().finalize();
    assert_eq!(
        hex(h.as_bytes()),
        "786a02f742015903c6c6fd852552d272912f4740e15847618a86e217f71f5419\
         d25e1031afee585313896444934eb04b903a685b1448b755d56f701afe9be2ce"
    );
}

#[test]
fn eager_absorption_keeps_one_block_pending() {
    // (total length, pending, counted) after absorbing that many bytes.
    let cases = [
        (0usize, 0usize, 0u128),
        (1, 1, 0),
        (127, 127, 0),
        (128, 128, 0),
        (129, 1, 128),
        (255, 127, 128),
        (256, 128, 128),
        (257, 1, 256),
    ];
    for (n, pending, counted) in cases {
        let s = Params::new().to_state().update_owned(&vec![3u8; n]);
        assert_eq!(s.pending(), pending, "length {n}");
        assert_eq!(s.count(), counted, "length {n}");
    }
}

#[test]
fn keyed_state_holds_the_key_block_pending() {
    let key = [9u8; 20];
    let s = Params::new().key_length(20).to_state_keyed(&key);
    assert_eq!(s.pending(), 128);
    assert_eq!(s.count(), 0);
    assert!(s.prefix_check(0));
    assert!(!s.prefix_check(1));
    let s = s.update_owned(b"x");
    assert_eq!(s.pending(), 1);
    assert_eq!(s.count(), 128);
}

#[test]
fn chained_updates_equal_one_update() {
    let mut a = Params::new().hash_length(32).personal(b"ZcashBlockCommit").to_state();
    let one = a.update(b"hello ").update(b"world").finalize();
    let two = Params::new()
        .hash_length(32)
        .personal(b"ZcashBlockCommit")
        .to_state()
        .update_owned(b"hello world")
        .finalize();
    assert_eq!(one, two);
    // The chained calls updated `a` itself.
    assert_eq!(a.finalize(), two);
}

#[test]
fn empty_update_changes_nothing() {
    let mut s = Params::new().to_state().update_owned(&[1u8; 300]);
    let before = (s.pending(), s.count(), s.finalize());
    s.update(&[]);
    assert_eq!((s.pending(), s.count(), s.finalize()), before);
}

#[test]
fn digest_length_is_hash_length() {
    for n in 1..=64usize {
        let h = Params::new().hash_length(n).to_state().update_owned(b"data").finalize();
        assert_eq!(h.len(), n);
        assert_eq!(h.as_bytes().len(), n);
        assert_eq!(h.as_ref().len(), n);
        assert!(!h.is_empty());
    }
}

#[test]
fn shorter_digest_is_not_a_prefix_of_longer() {
    // The digest length is in the parameter block, so it changes every byte.
    let a = Params::new().hash_length(32).to_state().finalize();
    let b = Params::new().hash_length(64).to_state().finalize();
    assert_ne!(a.as_bytes(), &b.as_bytes()[..32]);
}

#[test]
fn different_parameters_give_different_digests() {
    let base = Params::new().hash_length(32);
    let plain = base.clone().to_state().finalize();
    let salted = base.clone().salt(b"s").to_state().finalize();
    let personal = base.clone().personal(b"s").to_state().finalize();
    let keyed = base.clone().key_length(1).to_state_keyed(b"s").finalize();
    assert_ne!(plain, salted);
    assert_ne!(plain, personal);
    assert_ne!(salted, personal);
    assert_ne!(plain, keyed);
}

#[test]
fn salt_and_personal_are_zero_padded() {
    let short = Params::new().salt(b"ab").personal(b"cd").to_state().finalize();
    let padded = Params::new()
        .salt(&[b'a', b'b', 0, 0, 0, 0, 0, 0, 0, 0, 0, 0, 0, 0, 0, 0])
        .personal(&[b'c', b'd', 0, 0, 0, 0, 0, 0, 0, 0, 0, 0, 0, 0, 0, 0])
        .to_state()
        .finalize();
    assert_eq!(short, padded);
}

#[test]
fn empty_key_is_unkeyed() {
    let a = Params::new().to_state_keyed(&[]).finalize();
    let b = Params::new().to_state().finalize();
    assert_eq!(a, b);
}

#[test]
fn defaults_agree_with_new() {
    assert_eq!(State::default().finalize(), State::new().finalize());
    assert_eq!(
        Params::default().to_state().finalize(),
        Params::new().to_state().finalize()
    );
}

#[test]
fn array_conversions() {
    let h32 = Params::new().hash_length(32).to_state().update_owned(b"abc").finalize();
    assert_eq!(&h32.to_array32()[..], h32.as_bytes());
    let h64 = Params::new().to_state().update_owned(b"abc").finalize();
    assert_eq!(&h64.to_array64()[..], h64.as_bytes());
}

#[test]
fn clone_continues_apart_from_its_source() {
    let mut base = Params::new().to_state().update_owned(&[5u8; 140]);
    let copy = base.clone();
    base.update(b"more");
    assert_eq!(copy.pending(), 12);
    assert_ne!(copy.finalize(), base.finalize());
    assert_eq!(copy.finalize(), Params::new().to_state().update_owned(&[5u8; 140]).finalize());
}

#[test]
fn longest_key_salt_and_personal() {
    let key = [0xffu8; 64];
    let h = Params::new()
        .key_length(64)
        .salt(&[1u8; 16])
        .personal(&[2u8; 16])
        .to_state_keyed(&key)
        .update_owned(&[0u8; 1000])
        .finalize();
    assert_eq!(h.len(), 64);
}
