use vstd::prelude::*;

pub mod direction;
pub mod state;
pub mod codec;
pub mod engine;
pub mod spawn;
pub mod rollback;

pub use direction::Direction;
pub use state::{GameState, Pos, Segment};
pub use codec::BoxInput;
pub use engine::CollisionEvent;
pub use rollback::{Session, SessionPhase, EndReason, ConfirmOutcome, FrameInput};

verus! {

} // verus!
