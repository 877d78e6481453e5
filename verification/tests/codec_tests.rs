use snek_core::codec::{decode_command, encode_intent, BoxInput};
use snek_core::Direction;

#[test]
fn round_trip_no_change() {
    assert_eq!(decode_command(encode_intent(None)), None);
}

#[test]
fn round_trip_up() {
    assert_eq!(decode_command(encode_intent(Some(Direction::Up))), Some(Direction::Up));
}

#[test]
fn round_trip_down() {
    assert_eq!(decode_command(encode_intent(Some(Direction::Down))), Some(Direction::Down));
}

#[test]
fn round_trip_left() {
    assert_eq!(decode_command(encode_intent(Some(Direction::Left))), Some(Direction::Left));
}

#[test]
fn round_trip_right() {
    assert_eq!(decode_command(encode_intent(Some(Direction::Right))), Some(Direction::Right));
}

#[test]
fn encoding_is_one_byte_per_intent() {
    assert_eq!(encode_intent(None).inp, 0);
    assert_eq!(encode_intent(Some(Direction::Up)).inp, 1);
    assert_eq!(encode_intent(Some(Direction::Down)).inp, 2);
    assert_eq!(encode_intent(Some(Direction::Left)).inp, 3);
    assert_eq!(encode_intent(Some(Direction::Right)).inp, 4);
}

#[test]
fn malformed_bytes_decode_as_no_change() {
    for b in 5..=255u8 {
        assert_eq!(decode_command(BoxInput { inp: b }), None);
    }
    assert_eq!(decode_command(BoxInput { inp: 0 }), None);
}

#[test]
fn default_direction_is_up() {
    assert_eq!(Direction::default(), Direction::Up);
}
