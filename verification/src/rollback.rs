use vstd::prelude::*;

use crate::state::{GameState, StateModel, wf, MAX_HALF_EXTENT};
use crate::engine::{CollisionEvent, tick_spec, has_deadly, lemma_tick_preserves_wf};

verus! {

/// The pair of command bytes that drives one authoritative frame: one slot
/// per player, in a fixed order shared by both peers.
#[derive(Clone, Copy, Debug, PartialEq, Eq, Structural)]
pub struct FrameInput {
    pub p0: u8,
    pub p1: u8,
}

/// Why a session ended: a deadly collision (normal game over), an
/// unconfirmed backlog past the rollback window (desync), or a lost peer
/// channel.
#[derive(Clone, Copy, Debug, PartialEq, Eq, Structural)]
pub enum EndReason {
    GameOver,
    Desync,
    ChannelFailure,
}

/// The coordinator's state machine.  `RollingBack` is transient: the
/// coordinator enters it while it restores a snapshot and resimulates,
/// and leaves it inside the same confirmation call, so it is never
/// observed between calls.
#[derive(Clone, Copy, Debug, PartialEq, Eq, Structural)]
pub enum SessionPhase {
    AwaitingPeer,
    Synchronized,
    RollingBack,
    Running,
    Terminated(EndReason),
}

/// What a remote confirmation did.
#[derive(Clone, Copy, Debug, PartialEq, Eq, Structural)]
pub enum ConfirmOutcome {
    /// The session is not accepting confirmations, or the frame was
    /// already confirmed.
    Ignored,
    /// The frame has not been simulated yet; the command is buffered.
    Buffered,
    /// The prediction for that frame was right; nothing to redo.
    Matched,
    /// The prediction was wrong: state was rolled back and resimulated.
    RolledBack,
    /// The miss lies beyond the rollback window; the session is desynced.
    DesyncDetected,
}

/// The state reached by simulating every frame of `inputs` in order from
/// `init`: the lockstep ground truth both peers agree on once they hold
/// the same inputs.
pub open spec fn sim(init: StateModel, inputs: Seq<FrameInput>) -> StateModel
    decreases inputs.len(),
{
    if inputs.len() == 0 {
        init
    } else {
        tick_spec(sim(init, inputs.drop_last()), inputs.last().p0, inputs.last().p1)
    }
}

/// Determinism: the simulation is a function of the initial state and the
/// input sequence alone, so two runs over the same inputs agree at every
/// tick.
pub proof fn lemma_determinism(a: StateModel, b: StateModel, inputs: Seq<FrameInput>)
    requires
        a == b,
    ensures
        forall|k: int| 0 <= k <= inputs.len() ==> sim(a, inputs.take(k)) == sim(b, inputs.take(k)),
{
}

/// Simulation preserves well-formedness of the state.
pub proof fn lemma_sim_preserves_wf(init: StateModel, inputs: Seq<FrameInput>)
    requires
        wf(init),
    ensures
        wf(sim(init, inputs)),
    decreases inputs.len(),
{
    if inputs.len() > 0 {
        lemma_sim_preserves_wf(init, inputs.drop_last());
        lemma_tick_preserves_wf(sim(init, inputs.drop_last()), inputs.last().p0, inputs.last().p1);
    }
}

/// Rollback equivalence: simulating all frames in one uninterrupted run
/// gives the same state as simulating a prefix, snapshotting there, and
/// later resimulating the remaining frames from the snapshot.
pub proof fn lemma_rollback_equivalence(init: StateModel, inputs: Seq<FrameInput>, k: int)
    requires
        0 <= k <= inputs.len(),
    ensures
        sim(init, inputs) == sim(sim(init, inputs.take(k)), inputs.skip(k)),
    decreases inputs.len(),
{
    if k == inputs.len() {
        assert(inputs.take(k) =~= inputs);
        assert(inputs.skip(k) =~= Seq::<FrameInput>::empty());
    } else {
        let pre = inputs.drop_last();
        lemma_rollback_equivalence(init, pre, k);
        assert(inputs.take(k) =~= pre.take(k));
        assert(inputs.skip(k).drop_last() =~= pre.skip(k));
        assert(inputs.skip(k).last() == inputs.last());
        assert(inputs.skip(k).len() > 0);
    }
}

/// Lockstep agreement: two peers that started from the same initial state
/// and hold the same input pair for every simulated frame are in the same
/// state, however differently prediction, buffering and rollback went on
/// each side.
pub proof fn lemma_peer_agreement(a: Session, b: Session)
    requires
        session_wf(a),
        session_wf(b),
        a.init@ == b.init@,
        a.inputs@ == b.inputs@,
    ensures
        a.state@ == b.state@,
{
}

/// Extending the inputs by one frame advances the simulation by one tick.
pub proof fn lemma_sim_push(init: StateModel, inputs: Seq<FrameInput>, p: FrameInput)
    ensures
        sim(init, inputs.push(p)) == tick_spec(sim(init, inputs), p.p0, p.p1),
{
    assert(inputs.push(p).drop_last() =~= inputs);
}

/// The first buffered command for frame `f`, if one has arrived early.
pub open spec fn future_lookup(fut: Seq<(usize, u8)>, f: usize) -> Option<u8>
    decreases fut.len(),
{
    if fut.len() == 0 {
        Option::None
    } else if fut.first().0 == f {
        Option::Some(fut.first().1)
    } else {
        future_lookup(fut.drop_first(), f)
    }
}

/// When a buffered command exists for `f`, some buffer entry names `f`.
proof fn lemma_future_lookup_some(fut: Seq<(usize, u8)>, f: usize)
    requires
        future_lookup(fut, f) is Some,
    ensures
        exists|k: int| 0 <= k < fut.len() && (#[trigger] fut[k]).0 == f,
    decreases fut.len(),
{
    if fut.first().0 == f {
        assert(fut[0].0 == f);
    } else {
        lemma_future_lookup_some(fut.drop_first(), f);
        let k = choose|k: int| 0 <= k < fut.drop_first().len() && (#[trigger] fut.drop_first()[
            k
        ]).0 == f;
        assert(fut[k + 1] == fut.drop_first()[k]);
    }
}

/// When no buffered command exists for `f`, no buffer entry names `f`.
proof fn lemma_future_lookup_none(fut: Seq<(usize, u8)>, f: usize)
    requires
        future_lookup(fut, f) is None,
    ensures
        forall|k: int| 0 <= k < fut.len() ==> (#[trigger] fut[k]).0 != f,
    decreases fut.len(),
{
    if fut.len() > 0 {
        lemma_future_lookup_none(fut.drop_first(), f);
        assert forall|k: int| 0 <= k < fut.len() implies (#[trigger] fut[k]).0 != f by {
            if k > 0 {
                assert(fut.drop_first()[k - 1] == fut[k]);
            }
        }
    }
}

/// Appending a buffer entry changes only the lookup of its own frame, and
/// only when that frame had no earlier entry.
proof fn lemma_lookup_push(fut: Seq<(usize, u8)>, e: (usize, u8), g: usize)
    ensures
        future_lookup(fut.push(e), g) == (if future_lookup(fut, g) is Some {
            future_lookup(fut, g)
        } else if e.0 == g {
            Option::Some(e.1)
        } else {
            Option::<u8>::None
        }),
    decreases fut.len(),
{
    if fut.len() == 0 {
        assert(fut.push(e).first() == e);
        assert(future_lookup(fut, g) is None);
        if e.0 == g {
            assert(future_lookup(fut.push(e), g) == Option::Some(e.1));
        } else {
            assert(fut.push(e).drop_first() =~= Seq::<(usize, u8)>::empty());
            assert(future_lookup(fut.push(e).drop_first(), g) is None);
            assert(future_lookup(fut.push(e), g) is None);
        }
    } else {
        lemma_lookup_push(fut.drop_first(), e, g);
        assert(fut.push(e).first() == fut.first());
        assert(fut.push(e).drop_first() =~= fut.drop_first().push(e));
        if fut.first().0 == g {
            assert(future_lookup(fut.push(e), g) == Option::Some(fut.first().1));
            assert(future_lookup(fut, g) == Option::Some(fut.first().1));
        } else {
            assert(future_lookup(fut.push(e), g) == future_lookup(
                fut.drop_first().push(e),
                g,
            ));
            assert(future_lookup(fut, g) == future_lookup(fut.drop_first(), g));
        }
    }
}

/// Overwriting the first entry of a frame changes that frame's lookup to
/// the new command and no other frame's lookup.
proof fn lemma_lookup_update(fut: Seq<(usize, u8)>, k: int, cmd: u8, g: usize)
    requires
        0 <= k < fut.len(),
        forall|j: int| 0 <= j < k ==> (#[trigger] fut[j]).0 != fut[k].0,
    ensures
        future_lookup(fut.update(k, (fut[k].0, cmd)), fut[k].0) == Option::Some(cmd),
        g != fut[k].0 ==> future_lookup(fut.update(k, (fut[k].0, cmd)), g) == future_lookup(
            fut,
            g,
        ),
    decreases fut.len(),
{
    let f = fut[k].0;
    let nf = fut.update(k, (f, cmd));
    if k == 0 {
        assert(nf.first() == (f, cmd));
        if g != f {
            assert(nf.drop_first() =~= fut.drop_first());
        }
    } else {
        assert(nf.first() == fut.first());
        assert(fut.first().0 != f);
        assert(nf.drop_first() =~= fut.drop_first().update(k - 1, (f, cmd)));
        assert(fut.drop_first()[k - 1] == fut[k]);
        assert forall|j: int| 0 <= j < k - 1 implies (#[trigger] fut.drop_first()[j]).0
            != fut.drop_first()[k - 1].0 by {
            assert(fut.drop_first()[j] == fut[j + 1]);
        }
        lemma_lookup_update(fut.drop_first(), k - 1, cmd, g);
    }
}

/// The remote slot of an input pair, seen from the peer whose local player
/// index is `local_player`.
pub open spec fn remote_slot(p: FrameInput, local_player: u8) -> u8 {
    if local_player == 0 {
        p.p1
    } else {
        p.p0
    }
}

/// The input pair a peer records for one frame: its own command in its
/// slot, the remote command in the other.
pub open spec fn input_pair(local_player: u8, local: u8, remote: u8) -> FrameInput {
    if local_player == 0 {
        FrameInput { p0: local, p1: remote }
    } else {
        FrameInput { p0: remote, p1: local }
    }
}

/// An input pair with its remote slot replaced by a confirmed command.
pub open spec fn with_remote(p: FrameInput, local_player: u8, cmd: u8) -> FrameInput {
    if local_player == 0 {
        FrameInput { p0: p.p0, p1: cmd }
    } else {
        FrameInput { p0: cmd, p1: p.p1 }
    }
}

/// Largest supported rollback window depth.
pub const MAX_ROLLBACK_WINDOW: usize = 1_000_000;

/// The rollback/lockstep coordinator for a two-peer session.  It owns
/// frame advancement, buffers predicted and confirmed remote inputs per
/// frame, keeps a bounded ring of state snapshots, and resimulates from a
/// snapshot when a late remote command contradicts a prediction.
pub struct Session {
    /// This peer's player slot: 0 or 1.
    pub local_player: u8,
    /// Maximum supported rollback depth: how many recent frames can still
    /// be corrected.
    pub max_rollback: usize,
    /// The agreed frame-0 state.
    pub init: GameState,
    /// The current (confirmed-or-predicted) state after `frame` ticks.
    pub state: GameState,
    /// How many frames have been simulated.
    pub frame: usize,
    /// The best-known input pair for every simulated frame.
    pub inputs: Vec<FrameInput>,
    /// Whether the remote slot of each simulated frame is confirmed
    /// (`true`) or predicted (`false`).
    pub confirmed: Vec<bool>,
    /// The remote peer's most recent confirmed command: the prediction for
    /// frames whose remote command has not arrived yet.
    pub last_remote: u8,
    /// Confirmed remote commands that arrived for frames not yet
    /// simulated, as (frame, command) entries.
    pub future: Vec<(usize, u8)>,
    /// Snapshots of the states after `first_snapshot`, ...,
    /// `first_snapshot + snapshots.len() - 1` ticks; the restore points
    /// rollback can start from.
    pub snapshots: Vec<GameState>,
    /// The frame number the oldest retained snapshot belongs to.
    pub first_snapshot: usize,
    /// Where the session stands in its life cycle.
    pub phase: SessionPhase,
}

/// The coordinator's invariant.  Above all: the current state is exactly
/// the uninterrupted simulation of the recorded inputs from the initial
/// state, and every retained snapshot is exactly the simulation of the
/// corresponding input prefix — whatever mixture of prediction, buffering
/// and rollback produced them.
pub open spec fn session_wf(s: Session) -> bool {
    &&& wf(s.init@)
    &&& wf(s.state@)
    &&& s.local_player <= 1
    &&& 1 <= s.max_rollback <= MAX_ROLLBACK_WINDOW
    &&& s.inputs@.len() == s.frame
    &&& s.confirmed@.len() == s.frame
    &&& s.state@ == sim(s.init@, s.inputs@)
    &&& s.first_snapshot + s.snapshots@.len() == s.frame + 1
    &&& s.snapshots@.len() >= 1
    &&& forall|k: int| 0 <= k < s.snapshots@.len() ==> (#[trigger] s.snapshots@[k])@
        == sim(s.init@, s.inputs@.take(s.first_snapshot + k))
    &&& forall|k: int| 0 <= k < s.future@.len() ==> (#[trigger] s.future@[k]).0 >= s.frame
    &&& forall|k1: int, k2: int| 0 <= k1 < k2 < s.future@.len()
        ==> (#[trigger] s.future@[k1]).0 != (#[trigger] s.future@[k2]).0
    &&& (s.phase is Running || s.phase is Synchronized) ==> s.state@.alive
}

impl Session {
    /// Open a session on a fresh match: field half-extents, this peer's
    /// player slot and the rollback window depth.  The session waits for
    /// the peer channel to report the other peer.
    pub fn new(half_width: i64, half_height: i64, local_player: u8, max_rollback: usize) -> (r: Session)
        requires
            1 <= half_width <= MAX_HALF_EXTENT,
            1 <= half_height <= MAX_HALF_EXTENT,
            local_player <= 1,
            1 <= max_rollback <= MAX_ROLLBACK_WINDOW,
        ensures
            session_wf(r),
            r.phase is AwaitingPeer,
            r.frame == 0,
            r.init@ == crate::state::initial_model(half_width as int, half_height as int),
            r.state@ == r.init@,
            r.local_player == local_player,
            r.max_rollback == max_rollback,
    {
        let init = GameState::new(half_width, half_height);
        let state = init.snapshot();
        let first = init.snapshot();
        let mut snapshots: Vec<GameState> = Vec::new();
        snapshots.push(first);
        let r = Session {
            local_player,
            max_rollback,
            init,
            state,
            frame: 0,
            inputs: Vec::new(),
            confirmed: Vec::new(),
            last_remote: 0,
            future: Vec::new(),
            snapshots,
            first_snapshot: 0,
            phase: SessionPhase::AwaitingPeer,
        };
        proof {
            assert(r.inputs@.take(0) =~= Seq::<FrameInput>::empty());
            assert(r.state@ == sim(r.init@, r.inputs@));
            assert(r.snapshots@[0]@ == sim(r.init@, r.inputs@.take(0)));
        }
        r
    }

    /// The peer channel reported exactly one remote peer: both sides agree
    /// on frame 0 and the session is synchronized.
    pub fn peer_connected(&mut self)
        requires
            session_wf(*old(self)),
            old(self).phase is AwaitingPeer,
            old(self).state@.alive,
        ensures
            session_wf(*final(self)),
            *final(self) == (Session { phase: SessionPhase::Synchronized, ..*old(self) }),
    {
        self.phase = SessionPhase::Synchronized;
    }

    /// Advance one authoritative frame: record this peer's command for the
    /// current frame; take the remote command for it if one arrived early,
    /// otherwise predict by repeating the remote peer's last confirmed
    /// command; run one deterministic tick; snapshot the result; retire
    /// the oldest snapshot once the ring exceeds the rollback window; and
    /// end the match on a deadly collision.
    #[verifier::rlimit(80)]
    pub fn advance_frame(&mut self, local_cmd: u8) -> (events: Vec<CollisionEvent>)
        requires
            session_wf(*old(self)),
            old(self).phase is Synchronized || old(self).phase is Running,
            old(self).frame < usize::MAX - 1,
        ensures
            session_wf(*final(self)),
            final(self).frame == old(self).frame + 1,
            final(self).init == old(self).init,
            final(self).local_player == old(self).local_player,
            final(self).max_rollback == old(self).max_rollback,
            final(self).inputs@ == old(self).inputs@.push(
                input_pair(
                    old(self).local_player,
                    local_cmd,
                    match future_lookup(old(self).future@, old(self).frame) {
                        Option::Some(c) => c,
                        Option::None => old(self).last_remote,
                    },
                ),
            ),
            final(self).confirmed@ == old(self).confirmed@.push(
                future_lookup(old(self).future@, old(self).frame) is Some,
            ),
            final(self).state@ == sim(old(self).init@, final(self).inputs@),
            final(self).phase == (if final(self).state@.alive {
                SessionPhase::Running
            } else {
                SessionPhase::Terminated(EndReason::GameOver)
            }),
            has_deadly(events@) == !final(self).state@.alive,
    {
        let ghost os = *old(self);
        // Find a buffered confirmed command for this frame, if any.
        let mut remote: u8 = self.last_remote;
        let mut found = false;
        let mut idx: usize = 0;
        proof {
            assert(self.future@.skip(0) =~= self.future@);
        }
        while idx < self.future.len()
            invariant_except_break
                *self == os,
                0 <= idx <= self.future@.len(),
                !found,
                remote == self.last_remote,
                future_lookup(self.future@, self.frame) == future_lookup(
                    self.future@.skip(idx as int),
                    self.frame,
                ),
            ensures
                *self == os,
                found ==> (0 <= idx < self.future@.len() && self.future@[idx as int].0
                    == self.frame && remote == self.future@[idx as int].1
                    && future_lookup(self.future@, self.frame) == Option::Some(remote)),
                !found ==> (future_lookup(self.future@, self.frame) is None
                    && remote == self.last_remote),
            decreases self.future@.len() - idx,
        {
            let entry = self.future[idx];
            proof {
                assert(self.future@.skip(idx as int).first() == self.future@[idx as int]);
            }
            if entry.0 == self.frame {
                remote = entry.1;
                found = true;
                break;
            }
            proof {
                assert(self.future@.skip(idx as int).drop_first() =~= self.future@.skip(
                    idx as int + 1,
                ));
            }
            idx = idx + 1;
        }
        proof {
            if !found {
                assert(self.future@.skip(self.future@.len() as int)
                    =~= Seq::<(usize, u8)>::empty());
            }
        }
        if found {
            let _removed = self.future.remove(idx);
            self.last_remote = remote;
            proof {
                assert forall|k: int| 0 <= k < self.future@.len() implies (#[trigger] self
                    .future@[k]).0 > os.frame by {
                    if k < idx {
                        assert(self.future@[k] == os.future@[k]);
                        assert(os.future@[k].0 != os.future@[idx as int].0);
                    } else {
                        assert(self.future@[k] == os.future@[k + 1]);
                        assert(os.future@[idx as int].0 != os.future@[k + 1].0);
                    }
                }
            }
        } else {
            proof {
                lemma_future_lookup_none(self.future@, self.frame);
            }
        }
        let pair = if self.local_player == 0 {
            FrameInput { p0: local_cmd, p1: remote }
        } else {
            FrameInput { p0: remote, p1: local_cmd }
        };
        let ghost pre_inputs = self.inputs@;
        let events = self.state.tick(pair.p0, pair.p1);
        proof {
            lemma_sim_push(self.init@, pre_inputs, pair);
        }
        self.inputs.push(pair);
        self.confirmed.push(found);
        let snap = self.state.snapshot();
        self.snapshots.push(snap);
        self.frame = self.frame + 1;
        proof {
            assert forall|k: int| 0 <= k < self.snapshots@.len() implies (#[trigger] self
                .snapshots@[k])@ == sim(self.init@, self.inputs@.take(self.first_snapshot + k)) by {
                if k < self.snapshots@.len() - 1 {
                    assert(self.snapshots@[k] == os.snapshots@[k]);
                    assert(self.inputs@.take(self.first_snapshot + k) =~= pre_inputs.take(
                        self.first_snapshot + k,
                    ));
                } else {
                    assert(self.inputs@.take(self.first_snapshot + k) =~= self.inputs@);
                }
            }
        }
        if self.snapshots.len() > self.max_rollback + 1 {
            let ghost psnaps = self.snapshots@;
            let _oldest = self.snapshots.remove(0);
            self.first_snapshot = self.first_snapshot + 1;
            proof {
                assert forall|k: int| 0 <= k < self.snapshots@.len() implies (#[trigger] self
                    .snapshots@[k])@ == sim(
                    self.init@,
                    self.inputs@.take(self.first_snapshot + k),
                ) by {
                    assert(self.snapshots@[k] == psnaps[k + 1]);
                }
            }
        }
        self.phase = SessionPhase::Running;
        if !self.state.alive {
            self.phase = SessionPhase::Terminated(EndReason::GameOver);
        }
        events
    }

    /// A confirmed remote command arrived for frame `f`.  For a frame not
    /// yet simulated it is buffered.  For an already-simulated frame whose
    /// prediction matches, the frame is merely marked confirmed.  For a
    /// prediction miss within the rollback window, the coordinator
    /// restores the snapshot taken just before `f`, corrects the input,
    /// and resimulates every frame up to the present, leaving the state
    /// exactly as an uninterrupted run over the corrected inputs.  A miss
    /// beyond the window is an unrecoverable desync and terminates the
    /// session.
    #[verifier::rlimit(80)]
    pub fn confirm_remote(&mut self, f: usize, cmd: u8) -> (outcome: ConfirmOutcome)
        requires
            session_wf(*old(self)),
        ensures
            session_wf(*final(self)),
            final(self).frame == old(self).frame,
            final(self).init == old(self).init,
            final(self).local_player == old(self).local_player,
            final(self).max_rollback == old(self).max_rollback,
            !(old(self).phase is Synchronized || old(self).phase is Running) ==> (outcome
                is Ignored && *final(self) == *old(self)),
            ((old(self).phase is Synchronized || old(self).phase is Running) && f >= old(
                self,
            ).frame) ==> (outcome is Buffered
                && future_lookup(final(self).future@, f) == Option::Some(cmd)
                && (forall|g: usize| g != f ==> future_lookup(final(self).future@, g)
                    == future_lookup(old(self).future@, g))
                && final(self).inputs@ == old(self).inputs@
                && final(self).confirmed@ == old(self).confirmed@
                && final(self).snapshots@ == old(self).snapshots@
                && final(self).state@ == old(self).state@
                && final(self).phase == old(self).phase
                && final(self).last_remote == cmd),
            ((old(self).phase is Synchronized || old(self).phase is Running) && f < old(
                self,
            ).frame && old(self).confirmed@[f as int]) ==> (outcome is Ignored && *final(self)
                == *old(self)),
            ((old(self).phase is Synchronized || old(self).phase is Running) && f < old(
                self,
            ).frame && !old(self).confirmed@[f as int] && remote_slot(
                old(self).inputs@[f as int],
                old(self).local_player,
            ) == cmd) ==> (outcome is Matched
                && final(self).inputs@ == old(self).inputs@
                && final(self).confirmed@ == old(self).confirmed@.update(f as int, true)
                && final(self).snapshots@ == old(self).snapshots@
                && final(self).state@ == old(self).state@
                && final(self).phase == old(self).phase
                && final(self).last_remote == cmd),
            ((old(self).phase is Synchronized || old(self).phase is Running) && f < old(
                self,
            ).frame && !old(self).confirmed@[f as int] && remote_slot(
                old(self).inputs@[f as int],
                old(self).local_player,
            ) != cmd && f < old(self).first_snapshot) ==> (outcome is DesyncDetected
                && final(self).phase == SessionPhase::Terminated(EndReason::Desync)
                && final(self).inputs@ == old(self).inputs@
                && final(self).confirmed@ == old(self).confirmed@
                && final(self).snapshots@ == old(self).snapshots@
                && final(self).state@ == old(self).state@),
            ((old(self).phase is Synchronized || old(self).phase is Running) && f < old(
                self,
            ).frame && !old(self).confirmed@[f as int] && remote_slot(
                old(self).inputs@[f as int],
                old(self).local_player,
            ) != cmd && f >= old(self).first_snapshot) ==> (outcome is RolledBack
                && final(self).inputs@ == old(self).inputs@.update(
                f as int,
                with_remote(old(self).inputs@[f as int], old(self).local_player, cmd),
            )
                && final(self).confirmed@ == old(self).confirmed@.update(f as int, true)
                && final(self).state@ == sim(old(self).init@, final(self).inputs@)
                && final(self).last_remote == cmd
                && final(self).phase == (if final(self).state@.alive {
                old(self).phase
            } else {
                SessionPhase::Terminated(EndReason::GameOver)
            })),
    {
        let ghost os = *old(self);
        match self.phase {
            SessionPhase::Synchronized => {},
            SessionPhase::Running => {},
            _ => {
                return ConfirmOutcome::Ignored;
            },
        }
        if f >= self.frame {
            // Early arrival: buffer it for the frame's own advance.
            let mut idx: usize = 0;
            let mut found = false;
            proof {
                assert(self.future@.skip(0) =~= self.future@);
            }
            while idx < self.future.len()
                invariant_except_break
                    *self == os,
                    0 <= idx <= self.future@.len(),
                    !found,
                    forall|j: int| 0 <= j < idx ==> (#[trigger] self.future@[j]).0 != f,
                ensures
                    *self == os,
                    forall|j: int| 0 <= j < idx ==> (#[trigger] self.future@[j]).0 != f,
                    found ==> (0 <= idx < self.future@.len() && self.future@[idx as int].0
                        == f),
                    !found ==> idx == self.future@.len(),
                decreases self.future@.len() - idx,
            {
                let entry = self.future[idx];
                if entry.0 == f {
                    found = true;
                    break;
                }
                idx = idx + 1;
            }
            if found {
                self.future[idx] = (f, cmd);
                proof {
                    assert(self.future@ == os.future@.update(idx as int, (f, cmd)));
                    lemma_lookup_update(os.future@, idx as int, cmd, f);
                    assert forall|g: usize| g != f implies future_lookup(self.future@, g)
                        == future_lookup(os.future@, g) by {
                        lemma_lookup_update(os.future@, idx as int, cmd, g);
                    }
                    assert forall|k1: int, k2: int| 0 <= k1 < k2 < self.future@.len()
                        implies (#[trigger] self.future@[k1]).0 != (#[trigger] self
                        .future@[k2]).0 by {
                        assert(self.future@[k1].0 == os.future@[k1].0);
                        assert(self.future@[k2].0 == os.future@[k2].0);
                    }
                }
            } else {
                self.future.push((f, cmd));
                proof {
                    lemma_lookup_push(os.future@, (f, cmd), f);
                    if future_lookup(os.future@, f) is Some {
                        lemma_future_lookup_some(os.future@, f);
                        assert(false);
                    }
                    assert forall|g: usize| g != f implies future_lookup(self.future@, g)
                        == future_lookup(os.future@, g) by {
                        lemma_lookup_push(os.future@, (f, cmd), g);
                    }
                }
            }
            self.last_remote = cmd;
            return ConfirmOutcome::Buffered;
        }
        // The frame was already simulated.
        if self.confirmed[f] {
            return ConfirmOutcome::Ignored;
        }
        let pair = self.inputs[f];
        let prev_remote = if self.local_player == 0 {
            pair.p1
        } else {
            pair.p0
        };
        if prev_remote == cmd {
            // The prediction was right: no resimulation needed.
            self.confirmed[f] = true;
            self.last_remote = cmd;
            return ConfirmOutcome::Matched;
        }
        // Prediction miss.
        if f < self.first_snapshot {
            // The snapshot that could repair it is already retired.
            self.phase = SessionPhase::Terminated(EndReason::Desync);
            return ConfirmOutcome::DesyncDetected;
        }
        // Roll back: correct the input, restore the snapshot taken just
        // before frame `f`, and resimulate to the present frame.
        let newpair = if self.local_player == 0 {
            FrameInput { p0: pair.p0, p1: cmd }
        } else {
            FrameInput { p0: cmd, p1: pair.p1 }
        };
        let prev_phase = self.phase;
        self.phase = SessionPhase::RollingBack;
        self.inputs[f] = newpair;
        self.confirmed[f] = true;
        self.last_remote = cmd;
        let ghost ninputs = self.inputs@;
        let idx = f - self.first_snapshot;
        proof {
            assert(idx < os.snapshots@.len());
        }
        let restored = self.snapshots[idx].snapshot();
        self.state = restored;
        self.snapshots.truncate(idx + 1);
        proof {
            assert(self.snapshots@ == os.snapshots@.subrange(0, idx as int + 1));
            assert(ninputs.take(f as int) =~= os.inputs@.take(f as int));
            assert(self.state@ == sim(self.init@, ninputs.take(f as int)));
            lemma_sim_preserves_wf(self.init@, ninputs.take(f as int));
            assert forall|k: int| 0 <= k < self.snapshots@.len() implies (#[trigger] self
                .snapshots@[k])@ == sim(
                self.init@,
                ninputs.take(self.first_snapshot + k),
            ) by {
                assert(self.snapshots@[k] == os.snapshots@[k]);
                assert(ninputs.take(self.first_snapshot + k) =~= os.inputs@.take(
                    self.first_snapshot + k,
                ));
            }
        }
        let mut i: usize = f;
        while i < self.frame
            invariant
                f <= i <= self.frame,
                self.frame == os.frame,
                self.init == os.init,
                self.local_player == os.local_player,
                self.max_rollback == os.max_rollback,
                self.future@ == os.future@,
                self.phase is RollingBack,
                prev_phase == os.phase,
                self.last_remote == cmd,
                self.first_snapshot == os.first_snapshot,
                self.inputs@ == ninputs,
                self.confirmed@ == os.confirmed@.update(f as int, true),
                ninputs.len() == self.frame,
                wf(self.init@),
                wf(self.state@),
                self.state@ == sim(self.init@, ninputs.take(i as int)),
                self.first_snapshot + self.snapshots@.len() == i + 1,
                forall|k: int| 0 <= k < self.snapshots@.len() ==> (#[trigger] self
                    .snapshots@[k])@ == sim(self.init@, ninputs.take(self.first_snapshot + k)),
            decreases self.frame - i,
        {
            let p = self.inputs[i];
            let ghost pre = ninputs.take(i as int);
            let _events = self.state.tick(p.p0, p.p1);
            proof {
                lemma_sim_push(self.init@, pre, p);
                assert(pre.push(p) =~= ninputs.take(i as int + 1));
            }
            let snap = self.state.snapshot();
            self.snapshots.push(snap);
            i = i + 1;
        }
        proof {
            assert(ninputs.take(self.frame as int) =~= ninputs);
        }
        // Caught up: back to the phase the rollback interrupted, unless
        // the corrected run ended the match.
        self.phase = prev_phase;
        if !self.state.alive {
            self.phase = SessionPhase::Terminated(EndReason::GameOver);
        }
        ConfirmOutcome::RolledBack
    }

    /// The peer channel failed irrecoverably: the match ends abnormally.
    pub fn channel_failed(&mut self)
        requires
            session_wf(*old(self)),
        ensures
            session_wf(*final(self)),
            *final(self) == (Session {
                phase: SessionPhase::Terminated(EndReason::ChannelFailure),
                ..*old(self)
            }),
    {
        self.phase = SessionPhase::Terminated(EndReason::ChannelFailure);
    }
}

} // verus!
