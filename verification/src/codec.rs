use vstd::prelude::*;

use crate::direction::Direction;

verus! {

/// The one-byte wire payload carrying a single player's intent for one
/// logical frame.
#[derive(Clone, Copy, Debug, PartialEq, Eq, Structural)]
pub struct BoxInput {
    pub inp: u8,
}

/// The canonical byte for each directional intent (`None` is "no change").
pub open spec fn encode_spec(intent: Option<Direction>) -> u8 {
    match intent {
        Option::None => 0,
        Option::Some(Direction::Up) => 1,
        Option::Some(Direction::Down) => 2,
        Option::Some(Direction::Left) => 3,
        Option::Some(Direction::Right) => 4,
    }
}

/// The intent a received byte stands for.  A byte outside the five
/// canonical values is malformed and reads as "no change", so a corrupt
/// command can never stall or fork the deterministic engine.
pub open spec fn decode_spec(b: u8) -> Option<Direction> {
    if b == 1 {
        Option::Some(Direction::Up)
    } else if b == 2 {
        Option::Some(Direction::Down)
    } else if b == 3 {
        Option::Some(Direction::Left)
    } else if b == 4 {
        Option::Some(Direction::Right)
    } else {
        Option::None
    }
}

/// Encode a local player's directional intent into the wire payload.
pub fn encode_intent(intent: Option<Direction>) -> (r: BoxInput)
    ensures
        r.inp == encode_spec(intent),
{
    let b: u8 = match intent {
        Option::None => 0,
        Option::Some(Direction::Up) => 1,
        Option::Some(Direction::Down) => 2,
        Option::Some(Direction::Left) => 3,
        Option::Some(Direction::Right) => 4,
    };
    BoxInput { inp: b }
}

/// Decode a received wire payload back into a directional intent.
pub fn decode_command(input: BoxInput) -> (r: Option<Direction>)
    ensures
        r == decode_spec(input.inp),
{
    if input.inp == 1 {
        Option::Some(Direction::Up)
    } else if input.inp == 2 {
        Option::Some(Direction::Down)
    } else if input.inp == 3 {
        Option::Some(Direction::Left)
    } else if input.inp == 4 {
        Option::Some(Direction::Right)
    } else {
        Option::None
    }
}

/// Codec round trip: decoding an encoded intent gives the intent back, for
/// every representable intent.
pub proof fn lemma_codec_round_trip(intent: Option<Direction>)
    ensures
        decode_spec(encode_spec(intent)) == intent,
{
}

} // verus!
