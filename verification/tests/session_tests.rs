use snek_core::codec::encode_intent;
use snek_core::rollback::{ConfirmOutcome, EndReason, Session, SessionPhase};
use snek_core::state::GameState;
use snek_core::Direction;

const NOOP: u8 = 0;

fn cmd(d: Direction) -> u8 {
    encode_intent(Some(d)).inp
}

fn started(local_player: u8, max_rollback: usize) -> Session {
    let mut s = Session::new(5, 9, local_player, max_rollback);
    assert_eq!(s.phase, SessionPhase::AwaitingPeer);
    s.peer_connected();
    assert_eq!(s.phase, SessionPhase::Synchronized);
    s
}

fn same_state(a: &GameState, b: &GameState) -> bool {
    a.segments == b.segments && a.food == b.food && a.alive == b.alive
}

#[test]
fn session_starts_awaiting_then_runs() {
    let mut s = started(0, 8);
    s.advance_frame(NOOP);
    assert_eq!(s.phase, SessionPhase::Running);
    assert_eq!(s.frame, 1);
    assert_eq!(s.state.segments[0].pos.y, 1);
}

#[test]
fn channel_failure_terminates() {
    let mut s = started(0, 8);
    s.advance_frame(NOOP);
    s.channel_failed();
    assert_eq!(s.phase, SessionPhase::Terminated(EndReason::ChannelFailure));
    // A terminated session ignores late confirmations.
    assert_eq!(s.confirm_remote(0, cmd(Direction::Left)), ConfirmOutcome::Ignored);
}

#[test]
fn prediction_repeats_last_confirmed_command() {
    let mut s = started(0, 8);
    // The remote command for frame 0 arrives before the frame runs.
    assert_eq!(s.confirm_remote(0, cmd(Direction::Right)), ConfirmOutcome::Buffered);
    s.advance_frame(NOOP);
    // Frames 1 and 2 have no remote input yet: the coordinator predicts
    // "right" again, so the head keeps moving right.
    s.advance_frame(NOOP);
    s.advance_frame(NOOP);
    assert_eq!(s.state.segments[0].pos.x, 3);
    assert_eq!(s.state.segments[0].pos.y, 0);
}

#[test]
fn matching_confirmation_changes_nothing() {
    let mut s = started(0, 8);
    s.advance_frame(NOOP);
    s.advance_frame(NOOP);
    let before = s.state.snapshot();
    // The remote peer really sent the predicted no-op for frame 0.
    assert_eq!(s.confirm_remote(0, NOOP), ConfirmOutcome::Matched);
    assert!(same_state(&before, &s.state));
    // A duplicate confirmation is ignored.
    assert_eq!(s.confirm_remote(0, NOOP), ConfirmOutcome::Ignored);
}

/// Rollback equivalence, end to end: a late divergent remote command
/// rolls the session back and resimulates; the corrected present state is
/// identical to an uninterrupted run that knew the command from the
/// start.
#[test]
fn rollback_matches_uninterrupted_run() {
    let mut live = started(0, 8);
    // Three frames on prediction alone (remote predicted as no-op).
    live.advance_frame(cmd(Direction::Right));
    live.advance_frame(NOOP);
    live.advance_frame(NOOP);
    // The remote command for frame 1 arrives late and diverges.
    assert_eq!(s_remote(&live, 1), NOOP);
    assert_eq!(live.confirm_remote(1, cmd(Direction::Up)), ConfirmOutcome::RolledBack);

    // The reference run receives every input on time.
    let mut reference = started(0, 8);
    reference.advance_frame(cmd(Direction::Right));
    assert_eq!(reference.confirm_remote(1, cmd(Direction::Up)), ConfirmOutcome::Buffered);
    reference.advance_frame(NOOP);
    reference.advance_frame(NOOP);

    assert_eq!(live.frame, reference.frame);
    assert!(same_state(&live.state, &reference.state));
}

fn s_remote(s: &Session, frame: usize) -> u8 {
    let p = s.inputs[frame];
    if s.local_player == 0 {
        p.p1
    } else {
        p.p0
    }
}

/// Both peers converge on the same state once each has confirmed the
/// other's inputs, whatever order confirmations arrived in.
#[test]
fn two_peers_agree_after_confirmations() {
    let mut a = started(0, 16);
    let mut b = started(1, 16);
    let a_script = [cmd(Direction::Right), NOOP, cmd(Direction::Up), NOOP];
    let b_script = [NOOP, cmd(Direction::Left), NOOP, NOOP];
    // Each peer advances on prediction alone.
    for k in 0..4 {
        a.advance_frame(a_script[k]);
        b.advance_frame(b_script[k]);
    }
    // All inputs are then exchanged, late and out of band.
    for k in 0..4 {
        a.confirm_remote(k, b_script[k]);
        b.confirm_remote(k, a_script[k]);
    }
    assert!(same_state(&a.state, &b.state));
}

#[test]
fn miss_beyond_window_is_desync() {
    let mut s = started(0, 1);
    s.advance_frame(NOOP);
    s.advance_frame(NOOP);
    s.advance_frame(NOOP);
    // Only the last snapshot survives a window of one; frame 0 cannot be
    // repaired any more.
    assert_eq!(s.confirm_remote(0, cmd(Direction::Left)), ConfirmOutcome::DesyncDetected);
    assert_eq!(s.phase, SessionPhase::Terminated(EndReason::Desync));
}

#[test]
fn buffered_command_is_consumed_by_its_frame() {
    let mut s = started(1, 8);
    assert_eq!(s.confirm_remote(1, cmd(Direction::Right)), ConfirmOutcome::Buffered);
    // Frame 0 has no confirmed command: it is predicted by repeating the
    // last confirmed one, which the buffered confirmation just set.
    s.advance_frame(NOOP);
    s.advance_frame(NOOP);
    // This peer is player 1, so remote commands sit in slot 0; frame 1
    // used the buffered command, and both frames steered the head right.
    assert_eq!(s.inputs[0].p0, cmd(Direction::Right));
    assert_eq!(s.inputs[1].p0, cmd(Direction::Right));
    assert_eq!(s.state.segments[0].pos.x, 2);
    // A late duplicate for the predicted frame 0 matches its input.
    assert_eq!(s.confirm_remote(0, cmd(Direction::Right)), ConfirmOutcome::Matched);
    // The consumed frame 1 is already confirmed: a duplicate is ignored.
    assert_eq!(s.confirm_remote(1, cmd(Direction::Right)), ConfirmOutcome::Ignored);
}

#[test]
fn deadly_tick_terminates_session() {
    let mut s = started(0, 8);
    // Walk straight up; the field is nine cells high above the origin.
    for _ in 0..9 {
        s.advance_frame(NOOP);
        assert_eq!(s.phase, SessionPhase::Running);
    }
    let events = s.advance_frame(NOOP);
    assert_eq!(s.phase, SessionPhase::Terminated(EndReason::GameOver));
    assert!(!s.state.alive);
    assert_eq!(events.len(), 1);
}

/// A rollback can also change the match's outcome: a predicted collision
/// disappears when the confirmed input steers away.
#[test]
fn rollback_repairs_input_before_snapshot_retires() {
    let mut s = started(0, 4);
    for _ in 0..6 {
        s.advance_frame(NOOP);
    }
    assert_eq!(s.frame, 6);
    // Frame 3 is within the window of four.
    assert_eq!(s.confirm_remote(3, cmd(Direction::Right)), ConfirmOutcome::RolledBack);
    assert_eq!(s.frame, 6);
    // The corrected run turned right at frame 3: three cells up, then
    // three cells right.
    assert_eq!(s.state.segments[0].pos.x, 3);
    assert_eq!(s.state.segments[0].pos.y, 3);
}
