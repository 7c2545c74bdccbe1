use rspi::keystream::KeyStream;
use rspi::pcg::{rng_32, rng_64, session_key};

#[test]
fn rng_32_values() {
    let mut s = 0u64;
    assert_eq!(rng_32(&mut s), 0);
    assert_eq!(s, 3217);
    let mut s = 0xdeadbeefcafebabe_u64;
    assert_eq!(rng_32(&mut s), 3055882906);
    assert_eq!(s, 9726146767497535991);
}

#[test]
fn rng_64_values() {
    let mut s = 1u64;
    assert_eq!(rng_64(&mut s), 3837872008);
    assert_eq!(s, 5061208021841141495);
    let mut s = 0xdeadbeefcafebabe_u64;
    assert_eq!(rng_64(&mut s), 13124917145590161218);
    assert_eq!(s, 13572337372553514492);
}

#[test]
fn session_key_mixes_in_the_period() {
    assert_eq!(session_key(7, 1_700_000_000), 7 ^ 12266771376);
    assert_eq!(session_key(7, 1_700_000_004), session_key(7, 1_700_000_000));
}

#[test]
fn keystream_bytes_in_big_endian_order() {
    let mut k = KeyStream::new(0x0102030405060708);
    let mut data = [0u8; 10];
    k.apply(&mut data);
    assert_eq!(data, [1, 2, 3, 4, 5, 6, 7, 8, 1, 2]);
    let mut more = [0xffu8, 0, 0x10];
    k.apply(&mut more);
    assert_eq!(more, [0xff ^ 3, 4, 0x10 ^ 5]);
}

#[test]
fn keystream_round_trip() {
    let hash = 0x9e3779b97f4a7c15_u64;
    let text = b"hello, remote terminal".to_vec();
    let mut send = KeyStream::new(hash);
    let mut recv = KeyStream::new(hash);
    let mut wire = text.clone();
    send.apply(&mut wire[..5]);
    send.apply(&mut wire[5..]);
    assert_ne!(wire, text);
    recv.apply(&mut wire[..9]);
    recv.apply(&mut wire[9..]);
    assert_eq!(wire, text);
}

#[test]
fn keystream_matches_rotated_word_xor() {
    let hash = 0x1122334455667788_u64;
    let mut k = KeyStream::new(hash);
    let mut first = [0u8; 3];
    k.apply(&mut first);
    let mut data = [9u8, 8, 7, 6, 5, 4, 3, 2];
    let expect = (u64::from_be_bytes(data) ^ hash.rotate_left(3 * 8)).to_be_bytes();
    k.apply(&mut data);
    assert_eq!(data, expect);
}
