use parity_scale_codec::{Compact, Encode};
use staking_core::tracker::StaticSizeTracker;

#[test]
fn len_prefix_works() {
    let length_samples =
        vec![0usize, 1, 62, 63, 64, 16383, 16384, 16385, 1073741822, 1073741823, 1073741824];

    for s in length_samples {
        // the encoded size of a vector of n bytes should be n + the length
        // prefix; a vector encodes as the compact length followed by its
        // bytes, so for the gigabyte-sized samples compare the prefix against
        // the real encoder without materializing the vector
        if s <= 16385 {
            assert_eq!(vec![1u8; s].encoded_size(), StaticSizeTracker::length_prefix(s) + s);
        } else {
            assert_eq!(
                Compact(s as u32).encoded_size() + s,
                StaticSizeTracker::length_prefix(s) + s
            );
        }
    }
}

#[test]
fn length_tracking_works() {
    let mut voters: Vec<(u64, u64, Vec<u64>)> = vec![];
    let mut tracker = StaticSizeTracker::new();

    // initial state.
    assert_eq!(voters.encoded_size(), tracker.final_byte_size_of(voters.len()));

    // add a bunch of stuff.
    voters.push((1, 10, vec![1, 2, 3]));
    tracker.register_voter(3);
    assert_eq!(voters.encoded_size(), tracker.final_byte_size_of(voters.len()));

    voters.push((2, 20, vec![1, 3]));
    tracker.register_voter(2);
    assert_eq!(voters.encoded_size(), tracker.final_byte_size_of(voters.len()));

    voters.push((3, 30, vec![1]));
    tracker.register_voter(1);
    assert_eq!(voters.encoded_size(), tracker.final_byte_size_of(voters.len()));

    // unlikely to happen in reality, but anyways.
    voters.push((4, 40, vec![]));
    tracker.register_voter(0);
    assert_eq!(voters.encoded_size(), tracker.final_byte_size_of(voters.len()));
}

#[test]
fn voter_size_matches_encoder() {
    // one voter casting k votes occupies prefix(k) + 8k + 16 bytes
    for k in [0usize, 1, 5, 63, 64] {
        let voter: (u64, u64, Vec<u64>) = (7, 9, (0..k as u64).collect());
        // a single-element vector adds one byte of outer prefix
        let list = vec![voter];
        assert_eq!(list.encoded_size(), StaticSizeTracker::voter_size(k) + 1);
    }
}
