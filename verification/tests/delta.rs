use rsgit::git::bytes::ObjectError;
use rsgit::git::delta::apply_delta;

#[test]
fn delta_copies_and_inserts() {
    let base = b"hello world";
    let delta = [11u8, 7, 0x90, 5, 2, b'!', b'?'];
    assert_eq!(apply_delta(base, &delta).unwrap(), b"hello!?".to_vec());
}

#[test]
fn copies_may_write_all_their_arguments() {
    let base = b"hello world";
    let delta = [11u8, 5, 0xff, 6, 0, 0, 0, 5, 0, 0];
    assert_eq!(apply_delta(base, &delta), Ok(b"world".to_vec()));
}

#[test]
fn copies_of_size_zero_are_long() {
    let base = vec![b'x'; 0x1_0000];
    let delta = [0x80u8, 0x80, 0x04, 0x80, 0x80, 0x04, 0x80];
    assert_eq!(apply_delta(&base, &delta), Ok(base));
}

#[test]
fn an_empty_delta_makes_nothing() {
    assert_eq!(apply_delta(b"abc", &[3, 0]), Ok(Vec::new()));
}

#[test]
fn broken_deltas_are_reported() {
    let base = b"abc";
    assert_eq!(apply_delta(base, &[]), Err(ObjectError::ShortRead));
    assert_eq!(apply_delta(base, &[3]), Err(ObjectError::ShortRead));
    assert_eq!(apply_delta(base, &[0x83]), Err(ObjectError::ShortRead));
    assert_eq!(apply_delta(base, &[3, 1, 0x91, 0]), Err(ObjectError::ShortRead));
    assert_eq!(apply_delta(base, &[3, 4, 0x90, 4]), Err(ObjectError::CopyOutOfRange));
    assert_eq!(apply_delta(base, &[3, 4, 4, 1]), Err(ObjectError::InsertOutOfRange));
    assert_eq!(apply_delta(base, &[3, 0, 0]), Err(ObjectError::InvalidOpcode));
    assert_eq!(apply_delta(base, &[3, 2, 0x90, 3]), Err(ObjectError::SizeMismatch));
}
