use vstd::prelude::*;

use crate::direction::{Direction, opposite, dx, dy};
use crate::codec::decode_spec;
use crate::state::{
    GameState, Segment, Pos, PosModel, SegModel, StateModel,
    pos_in_bounds, seg_in_bounds, seg_good, food_clear, grid_wf, wf,
};

verus! {

/// A collision found in one tick: the head touched food (`Safe`) or the
/// head touched a wall or the snake's own body (`Deadly`).  Events are
/// produced by the collision step and drained by the growth and terminal
/// steps of the same tick; they are never persisted across ticks.
#[derive(Clone, Copy, Debug, PartialEq, Eq, Structural)]
pub enum CollisionEvent {
    Safe,
    Deadly,
}

/// Whether some event in the list is `Deadly`.
pub open spec fn has_deadly(evs: Seq<CollisionEvent>) -> bool {
    exists|i: int| 0 <= i < evs.len() && evs[i] is Deadly
}

/// Whether some event in the list is `Safe`.
pub open spec fn has_safe(evs: Seq<CollisionEvent>) -> bool {
    exists|i: int| 0 <= i < evs.len() && evs[i] is Safe
}

/// Step 1 of a tick, for one decoded command: apply the intent to the head
/// segment's `next_dir`, silently dropping a request for the exact reverse
/// of the head's committed direction.
pub open spec fn apply_intent(m: StateModel, intent: Option<Direction>) -> StateModel {
    match intent {
        Option::None => m,
        Option::Some(d) => {
            if m.segs.len() == 0 || d == opposite(m.segs[0].curr) {
                m
            } else {
                StateModel {
                    segs: m.segs.update(
                        0,
                        SegModel { next: d, ..m.segs[0] },
                    ),
                    ..m
                }
            }
        },
    }
}

/// The head segment after one move: it advances one cell in its committed
/// `next_dir`, and that direction becomes its current one.
pub open spec fn head_moved(h: SegModel) -> SegModel {
    SegModel { curr: h.next, next: h.next, x: h.x + dx(h.next), y: h.y + dy(h.next) }
}

/// Step 2 of a tick: shift-register movement.  Each non-head segment takes
/// the position and direction its predecessor held before this tick's
/// move, and the head advances one cell.
pub open spec fn move_spec(m: StateModel) -> StateModel {
    StateModel {
        segs: Seq::new(
            m.segs.len(),
            |i: int| if i == 0 { head_moved(m.segs[0]) } else { m.segs[i - 1] },
        ),
        ..m
    }
}

/// Whether the head has left the play field.
pub open spec fn hits_wall(m: StateModel) -> bool {
    !pos_in_bounds(m, m.segs[0].x, m.segs[0].y)
}

/// Whether segment `j` sits on the head's cell.
pub open spec fn body_hit(m: StateModel, j: int) -> bool {
    m.segs[j].x == m.segs[0].x && m.segs[j].y == m.segs[0].y
}

/// Whether the head sits on one of the non-head segments.
pub open spec fn hits_body(m: StateModel) -> bool {
    exists|j: int| 1 <= j < m.segs.len() && #[trigger] body_hit(m, j)
}

/// A deadly collision this tick: wall or own body.
pub open spec fn deadly_spec(m: StateModel) -> bool {
    hits_wall(m) || hits_body(m)
}

/// A safe collision this tick: the head sits on the food cell.
pub open spec fn safe_spec(m: StateModel) -> bool {
    match m.food {
        Option::Some(p) => p.x == m.segs[0].x && p.y == m.segs[0].y,
        Option::None => false,
    }
}

/// Step 4 of a tick: growth.  Append one segment one cell behind the tail,
/// against the tail's committed direction, inheriting the tail's
/// directions.
pub open spec fn grown(m: StateModel) -> StateModel {
    let t = m.segs.last();
    StateModel {
        segs: m.segs.push(
            SegModel { curr: t.curr, next: t.next, x: t.x - dx(t.curr), y: t.y - dy(t.curr) },
        ),
        ..m
    }
}

/// The model after the two direction-update steps of a tick (player 0's
/// command first, then player 1's).
pub open spec fn directed(m: StateModel, c0: u8, c1: u8) -> StateModel {
    apply_intent(apply_intent(m, decode_spec(c0)), decode_spec(c1))
}

/// The model after the direction-update and move steps of a tick.
pub open spec fn moved(m: StateModel, c0: u8, c1: u8) -> StateModel {
    move_spec(directed(m, c0, c1))
}

/// Whether a tick of `m` under the two commands finds a deadly collision.
pub open spec fn tick_deadly(m: StateModel, c0: u8, c1: u8) -> bool {
    m.alive && m.segs.len() >= 1 && deadly_spec(moved(m, c0, c1))
}

/// Whether a tick of `m` under the two commands eats the food.
pub open spec fn tick_safe(m: StateModel, c0: u8, c1: u8) -> bool {
    m.alive && m.segs.len() >= 1 && safe_spec(moved(m, c0, c1))
}

/// One deterministic tick: direction update, move, collision check, growth,
/// terminal check, in exactly this order.  A dead state is left untouched.
pub open spec fn tick_spec(m: StateModel, c0: u8, c1: u8) -> StateModel {
    if !m.alive || m.segs.len() == 0 {
        m
    } else {
        let m2 = moved(m, c0, c1);
        let deadly = deadly_spec(m2);
        let safe = safe_spec(m2);
        let m3 = if safe {
            grown(StateModel { food: Option::None, ..m2 })
        } else {
            m2
        };
        StateModel { alive: !deadly, ..m3 }
    }
}

/// Reverse-rejection: commanding the exact opposite of the head's current
/// direction never changes its buffered `next_dir`; the whole state is left
/// as it was.
pub proof fn lemma_reverse_rejection(m: StateModel, d: Direction)
    requires
        m.segs.len() >= 1,
        d == opposite(m.segs[0].curr),
    ensures
        apply_intent(m, Option::Some(d)) == m,
        apply_intent(m, Option::Some(d)).segs[0].next == m.segs[0].next,
{
}

/// Growth placement: growing from a tail at position `(x, y)` with
/// committed direction `D` appends exactly one segment, one cell behind
/// `(x, y)` against `D`, inheriting the tail's directions; everything in
/// front of it is untouched.
pub proof fn lemma_growth_placement(m: StateModel)
    requires
        m.segs.len() >= 1,
    ensures
        grown(m).segs.len() == m.segs.len() + 1,
        grown(m).segs.last().x == m.segs.last().x - dx(m.segs.last().curr),
        grown(m).segs.last().y == m.segs.last().y - dy(m.segs.last().curr),
        grown(m).segs.last().curr == m.segs.last().curr,
        grown(m).segs.last().next == m.segs.last().next,
        grown(m).segs.drop_last() == m.segs,
        grown(m).food == m.food,
        grown(m).alive == m.alive,
{
    assert(grown(m).segs.drop_last() =~= m.segs);
}

/// A safe and a deadly collision cannot both happen in one tick of a
/// well-formed state: the food cell is on the field and disjoint from
/// every pre-move segment, and after the move every non-head segment
/// stands on a pre-move position.
proof fn lemma_safe_excludes_deadly(m: StateModel, c0: u8, c1: u8)
    requires
        wf(m),
        m.alive,
        safe_spec(moved(m, c0, c1)),
    ensures
        !deadly_spec(moved(m, c0, c1)),
{
    let m1 = directed(m, c0, c1);
    let m2 = moved(m, c0, c1);
    let p = m.food->Some_0;
    assert(m1.segs.len() == m.segs.len());
    assert(forall|i: int| 0 <= i < m.segs.len() ==> (#[trigger] m1.segs[i]).x == m.segs[i].x
        && m1.segs[i].y == m.segs[i].y);
    assert(m2.segs[0].x == p.x && m2.segs[0].y == p.y);
    assert(pos_in_bounds(m2, p.x, p.y));
    assert(!hits_wall(m2));
    assert forall|i: int| 1 <= i < m2.segs.len() implies !(#[trigger] body_hit(m2, i)) by {
        assert(m2.segs[i] == m1.segs[i - 1]);
        assert(m1.segs[i - 1].x == m.segs[i - 1].x && m1.segs[i - 1].y == m.segs[i - 1].y);
        assert(!(m.segs[i - 1].x == p.x && m.segs[i - 1].y == p.y));
    }
    assert(!hits_body(m2));
}

/// The deterministic tick preserves well-formedness: the snake stays
/// non-empty, every segment of a live state stays on the field, and the
/// food cell stays disjoint from every segment.
pub proof fn lemma_tick_preserves_wf(m: StateModel, c0: u8, c1: u8)
    requires
        wf(m),
    ensures
        wf(tick_spec(m, c0, c1)),
{
    if !m.alive || m.segs.len() == 0 {
        return;
    }
    let m1 = directed(m, c0, c1);
    let m2 = moved(m, c0, c1);
    let deadly = deadly_spec(m2);
    let safe = safe_spec(m2);
    let r = tick_spec(m, c0, c1);

    // The direction steps keep every position and every committed
    // direction, so m1 is well-formed like m.
    assert(m1.segs.len() == m.segs.len());
    assert(forall|i: int| 0 <= i < m.segs.len() ==> (#[trigger] m1.segs[i]).x == m.segs[i].x
        && m1.segs[i].y == m.segs[i].y && m1.segs[i].curr == m.segs[i].curr);
    assert(m1.half_w == m.half_w && m1.half_h == m.half_h && m1.food == m.food && m1.alive);
    assert forall|i: int| 0 <= i < m1.segs.len() implies seg_in_bounds(m1, #[trigger] m1.segs[i]) by {
        assert(seg_in_bounds(m, m.segs[i]));
    }
    assert forall|i: int| 0 <= i < m1.segs.len() - 1 implies seg_good(m1, #[trigger] m1.segs[i]) by {
        assert(seg_good(m, m.segs[i]));
    }

    // After the move, every non-head segment is good, and the head's
    // trailing cell (its pre-move position) is on the field.
    assert(m2.segs.len() == m1.segs.len());
    assert(m2.segs[0] == head_moved(m1.segs[0]));
    assert forall|i: int| 1 <= i < m2.segs.len() implies seg_good(m2, #[trigger] m2.segs[i]) by {
        assert(m2.segs[i] == m1.segs[i - 1]);
        if i - 1 < m1.segs.len() - 1 {
            assert(seg_good(m1, m1.segs[i - 1]));
        } else {
            assert(i as nat == m1.segs.len() - 1);
            assert(i == m2.segs.len() - 1);
        }
    }
    assert(pos_in_bounds(m2, m2.segs[0].x - dx(m2.segs[0].curr), m2.segs[0].y - dy(m2.segs[0].curr)));

    // Non-head positions after the move are pre-move positions, hence
    // disjoint from the food cell.
    assert forall|i: int| 1 <= i < m2.segs.len() && m.food is Some implies
        !(#[trigger] m2.segs[i].x == m.food->Some_0.x && m2.segs[i].y == m.food->Some_0.y) by {
        assert(m2.segs[i] == m1.segs[i - 1]);
        assert(m1.segs[i - 1].x == m.segs[i - 1].x && m1.segs[i - 1].y == m.segs[i - 1].y);
    }

    if safe {
        lemma_safe_excludes_deadly(m, c0, c1);
        let mf = StateModel { food: Option::None, ..m2 };
        let m3 = grown(mf);
        assert(r == StateModel { alive: !deadly, ..m3 });
        // The tail is good, so the appended segment lands on the field.
        let t = mf.segs.last();
        let tl = mf.segs.len() - 1;
        if tl >= 1 {
            assert(seg_good(m2, m2.segs[tl as int]));
        } else {
            // Single segment: the tail is the moved head; its trailing
            // cell is the head's pre-move position, and the head itself
            // sits on the food cell, which is on the field.
            assert(!hits_wall(m2));
            assert(seg_in_bounds(m2, m2.segs[0]));
        }
        assert(pos_in_bounds(m2, t.x, t.y));
        assert(pos_in_bounds(m2, t.x - dx(t.curr), t.y - dy(t.curr)));
        assert forall|i: int| 0 <= i < r.segs.len() implies seg_in_bounds(r, #[trigger] r.segs[i]) by {
            if i < m2.segs.len() {
                assert(r.segs[i] == m2.segs[i]);
                if i >= 1 {
                    assert(seg_good(m2, m2.segs[i]));
                } else {
                    assert(!hits_wall(m2));
                }
            } else {
                assert(r.segs[i] == m3.segs.last());
            }
        }
        assert forall|i: int| 0 <= i < r.segs.len() - 1 implies seg_good(r, #[trigger] r.segs[i]) by {
            assert(r.segs[i] == m2.segs[i]);
            if i >= 1 {
                assert(seg_good(m2, m2.segs[i]));
            } else {
                assert(!hits_wall(m2));
            }
        }
        assert(r.food is None);
        assert(wf(r));
    } else {
        assert(r == StateModel { alive: !deadly, ..m2 });
        if !deadly {
            assert forall|i: int| 0 <= i < r.segs.len() implies seg_in_bounds(r, #[trigger] r.segs[i]) by {
                if i >= 1 {
                    assert(seg_good(m2, m2.segs[i]));
                } else {
                    assert(!hits_wall(m2));
                }
            }
            assert forall|i: int| 0 <= i < r.segs.len() - 1 implies seg_good(r, #[trigger] r.segs[i]) by {
                if i >= 1 {
                    assert(seg_good(m2, m2.segs[i]));
                } else {
                    assert(!hits_wall(m2));
                }
            }
        }
        // Food exclusivity: the head is not on the food cell (no safe
        // event), and no other segment is either.
        if m.food is Some {
            let p = m.food->Some_0;
            assert(r.food == m.food);
            assert(!(m2.segs[0].x == p.x && m2.segs[0].y == p.y));
            assert forall|i: int| 0 <= i < r.segs.len() implies
                !(#[trigger] r.segs[i].x == p.x && r.segs[i].y == p.y) by {
                assert(r.segs[i] == m2.segs[i]);
            }
        }
        assert(wf(r));
    }
}

/// Food exclusivity: after any tick of a well-formed state, the food cell,
/// if present, is disjoint from every segment position.
pub proof fn lemma_food_exclusivity(m: StateModel, c0: u8, c1: u8)
    requires
        wf(m),
    ensures
        food_clear(tick_spec(m, c0, c1)),
{
    lemma_tick_preserves_wf(m, c0, c1);
}

/// The direction-update steps touch only the head's `next_dir`: every
/// position, every committed direction and everything else is kept.
proof fn lemma_directed_facts(m: StateModel, c0: u8, c1: u8)
    requires
        m.segs.len() >= 1,
    ensures
        directed(m, c0, c1).segs.len() == m.segs.len(),
        forall|i: int| 0 <= i < m.segs.len() ==> (#[trigger] directed(m, c0, c1).segs[i]).x
            == m.segs[i].x && directed(m, c0, c1).segs[i].y == m.segs[i].y
            && directed(m, c0, c1).segs[i].curr == m.segs[i].curr,
        directed(m, c0, c1).half_w == m.half_w,
        directed(m, c0, c1).half_h == m.half_h,
        directed(m, c0, c1).food == m.food,
        directed(m, c0, c1).alive == m.alive,
{
}

impl GameState {
    /// Step 1 of a tick for one command byte: decode it and apply the
    /// intent to the head's `next_dir`, dropping an exact reverse.
    fn apply_command(&mut self, cmd: u8)
        requires
            old(self).segments.len() >= 1,
        ensures
            final(self)@ == apply_intent(old(self)@, decode_spec(cmd)),
            final(self).segments.len() == old(self).segments.len(),
    {
        let intent = crate::codec::decode_command(crate::codec::BoxInput { inp: cmd });
        match intent {
            Option::None => {},
            Option::Some(d) => {
                let head = self.segments[0];
                if !(d == head.curr_dir.reverse()) {
                    let updated = Segment { next_dir: d, ..head };
                    self.segments[0] = updated;
                    proof {
                        assert(self@.segs =~= apply_intent(old(self)@, decode_spec(cmd)).segs);
                        assert(self@ =~= apply_intent(old(self)@, decode_spec(cmd)));
                    }
                }
            },
        }
    }

    /// Step 2 of a tick: shift-register movement.  Working from the tail
    /// forward, every non-head segment takes its predecessor's pre-tick
    /// state; then the head commits `next_dir` and advances one cell.
    fn move_step(&mut self)
        requires
            old(self).segments.len() >= 1,
            -crate::state::MAX_HALF_EXTENT <= old(self).segments[0].pos.x <= crate::state::MAX_HALF_EXTENT,
            -crate::state::MAX_HALF_EXTENT <= old(self).segments[0].pos.y <= crate::state::MAX_HALF_EXTENT,
        ensures
            final(self)@ == move_spec(old(self)@),
            final(self).segments.len() == old(self).segments.len(),
    {
        let ghost osegs = self@.segs;
        let n = self.segments.len();
        let head = self.segments[0];
        let nd = head.next_dir;
        let nx = head.pos.x + crate::direction::step_dx(nd);
        let ny = head.pos.y + crate::direction::step_dy(nd);
        let new_head = Segment { curr_dir: nd, next_dir: nd, pos: Pos { x: nx, y: ny } };
        proof {
            assert(head@ == osegs[0]);
            assert(new_head@ == head_moved(osegs[0]));
        }
        let mut moved: Vec<Segment> = Vec::new();
        moved.push(new_head);
        let mut i: usize = 1;
        while i < n
            invariant
                n == self.segments.len(),
                n == osegs.len(),
                osegs == self@.segs,
                1 <= i <= n,
                moved@.len() == i,
                moved@[0] == new_head,
                forall|j: int| 1 <= j < i ==> moved@[j] == self.segments@[j - 1],
            decreases n - i,
        {
            let s = self.segments[i - 1];
            moved.push(s);
            i = i + 1;
        }
        self.segments = moved;
        proof {
            assert forall|j: int| 0 <= j < n implies self@.segs[j] == move_spec(old(self)@).segs[j] by {
                if j == 0 {
                    assert(self@.segs[0] == new_head@);
                } else {
                    assert(self@.segs[j] == self.segments@[j]@);
                    assert(self.segments@[j] == old(self).segments@[j - 1]);
                    assert(osegs[j - 1] == old(self).segments@[j - 1]@);
                }
            }
            assert(self@.segs =~= move_spec(old(self)@).segs);
            assert(self@ =~= move_spec(old(self)@));
        }
    }

    /// Step 3 of a tick: emit a `Deadly` event for a head outside the play
    /// field and one per body segment the head sits on, then a `Safe`
    /// event when the head sits on the food cell, removing the food.
    fn check_collisions(&mut self) -> (events: Vec<CollisionEvent>)
        requires
            old(self).segments.len() >= 1,
            grid_wf(old(self)@),
        ensures
            final(self)@ == if safe_spec(old(self)@) {
                StateModel { food: Option::None, ..old(self)@ }
            } else {
                old(self)@
            },
            has_deadly(events@) == deadly_spec(old(self)@),
            has_safe(events@) == safe_spec(old(self)@),
            forall|i: int| 0 <= i < events@.len() ==> ((#[trigger] events@[i]) is Safe
                ==> i == events@.len() - 1),
    {
        let ghost m = self@;
        let mut events: Vec<CollisionEvent> = Vec::new();
        let head = self.segments[0];
        let on_field = -self.half_width <= head.pos.x && head.pos.x <= self.half_width
            && -self.half_height <= head.pos.y && head.pos.y <= self.half_height;
        proof {
            assert(m.segs[0] == head@);
        }
        if !on_field {
            events.push(CollisionEvent::Deadly);
        }
        proof {
            if !on_field {
                assert(events@[0] is Deadly);
                assert(hits_wall(m));
            } else {
                assert(!hits_wall(m));
            }
            assert(has_deadly(events@) == hits_wall(m));
            assert(!has_safe(events@));
        }
        let mut i: usize = 1;
        while i < self.segments.len()
            invariant
                *self == *old(self),
                m == self@,
                self.segments.len() == m.segs.len(),
                self.segments.len() >= 1,
                m.segs[0] == head@,
                1 <= i <= self.segments.len(),
                !has_safe(events@),
                has_deadly(events@) == (hits_wall(m) || exists|j: int| 1 <= j < i
                    && #[trigger] body_hit(m, j)),
            decreases self.segments.len() - i,
        {
            let s = self.segments[i];
            let ghost pre = events@;
            let hit = s.pos.x == head.pos.x && s.pos.y == head.pos.y;
            if hit {
                events.push(CollisionEvent::Deadly);
            }
            proof {
                assert(m.segs[i as int] == s@);
                assert(hit == body_hit(m, i as int));
                if hit {
                    assert(events@.last() is Deadly);
                    assert(has_deadly(events@));
                }
                if !hit && (hits_wall(m) || exists|j: int| 1 <= j < i + 1
                    && #[trigger] body_hit(m, j)) {
                    if exists|j: int| 1 <= j < i + 1 && #[trigger] body_hit(m, j) {
                        let j = choose|j: int| 1 <= j < i + 1 && #[trigger] body_hit(m, j);
                        assert(j < i as int);
                    }
                    assert(has_deadly(pre));
                    let q = choose|q: int| 0 <= q < pre.len() && pre[q] is Deadly;
                    assert(events@[q] is Deadly);
                    assert(has_deadly(events@));
                }
                if has_deadly(events@) && !hit {
                    let q = choose|q: int| 0 <= q < events@.len() && events@[q] is Deadly;
                    assert(pre[q] is Deadly);
                    assert(has_deadly(pre));
                }
                if has_safe(events@) {
                    let q = choose|q: int| 0 <= q < events@.len() && events@[q] is Safe;
                    assert(q < pre.len() ==> pre[q] is Safe);
                    assert(!(q < pre.len()) ==> events@[q] is Deadly);
                    assert(false);
                }
            }
            i = i + 1;
        }
        proof {
            assert(has_deadly(events@) == deadly_spec(m));
        }
        let ghost pre = events@;
        let mut ate = false;
        match self.food {
            Option::Some(p) => {
                if p.x == head.pos.x && p.y == head.pos.y {
                    events.push(CollisionEvent::Safe);
                    self.food = Option::None;
                    ate = true;
                }
            },
            Option::None => {},
        }
        proof {
            if ate {
                assert(events@.last() is Safe);
                assert(safe_spec(m));
            }
            if has_deadly(pre) {
                let j = choose|j: int| 0 <= j < pre.len() && pre[j] is Deadly;
                assert(events@[j] is Deadly);
            }
            if has_deadly(events@) {
                let j = choose|j: int| 0 <= j < events@.len() && events@[j] is Deadly;
                assert(j < pre.len() ==> pre[j] is Deadly);
            }
            if has_safe(events@) {
                let j = choose|j: int| 0 <= j < events@.len() && events@[j] is Safe;
                assert(!(j < pre.len()));
            }
            assert(self@ =~= if safe_spec(m) { StateModel { food: Option::None, ..m } } else { m });
        }
        events
    }

    /// Step 4 of a tick: drain the event list; every `Safe` event appends
    /// one segment one cell behind the tail, against the tail's committed
    /// direction.
    fn add_segments(&mut self, events: &Vec<CollisionEvent>)
        requires
            old(self).segments.len() >= 1,
            forall|i: int| 0 <= i < events@.len() ==> ((#[trigger] events@[i]) is Safe
                ==> i == events@.len() - 1),
            -(crate::state::MAX_HALF_EXTENT + 1) <= old(self)@.segs.last().x
                <= crate::state::MAX_HALF_EXTENT + 1,
            -(crate::state::MAX_HALF_EXTENT + 1) <= old(self)@.segs.last().y
                <= crate::state::MAX_HALF_EXTENT + 1,
        ensures
            final(self)@ == if has_safe(events@) { grown(old(self)@) } else { old(self)@ },
    {
        let mut k: usize = 0;
        while k < events.len()
            invariant
                0 <= k <= events@.len(),
                forall|i: int| 0 <= i < events@.len() ==> ((#[trigger] events@[i]) is Safe
                    ==> i == events@.len() - 1),
                old(self).segments.len() >= 1,
                -(crate::state::MAX_HALF_EXTENT + 1) <= old(self)@.segs.last().x
                    <= crate::state::MAX_HALF_EXTENT + 1,
                -(crate::state::MAX_HALF_EXTENT + 1) <= old(self)@.segs.last().y
                    <= crate::state::MAX_HALF_EXTENT + 1,
                has_safe(events@.take(k as int)) ==> self@ == grown(old(self)@),
                !has_safe(events@.take(k as int)) ==> *self == *old(self),
            decreases events@.len() - k,
        {
            let ghost pre = events@.take(k as int);
            match events[k] {
                CollisionEvent::Safe => {
                    proof {
                        if has_safe(pre) {
                            let j = choose|j: int| 0 <= j < pre.len() && pre[j] is Safe;
                            assert(events@[j] is Safe);
                            assert(false);
                        }
                    }
                    let t = self.segments[self.segments.len() - 1];
                    let gx = t.pos.x - crate::direction::step_dx(t.curr_dir);
                    let gy = t.pos.y - crate::direction::step_dy(t.curr_dir);
                    let fresh = Segment { curr_dir: t.curr_dir, next_dir: t.next_dir, pos: Pos { x: gx, y: gy } };
                    self.segments.push(fresh);
                    proof {
                        assert(t@ == old(self)@.segs.last());
                        assert(self@.segs =~= grown(old(self)@).segs);
                        assert(self@ =~= grown(old(self)@));
                    }
                },
                CollisionEvent::Deadly => {},
            }
            proof {
                let post = events@.take(k as int + 1);
                assert(post.last() == events@[k as int]);
                if has_safe(post) {
                    let j = choose|j: int| 0 <= j < post.len() && post[j] is Safe;
                    assert(j < pre.len() ==> pre[j] is Safe);
                }
                if has_safe(pre) {
                    let j = choose|j: int| 0 <= j < pre.len() && pre[j] is Safe;
                    assert(post[j] is Safe);
                }
            }
            k = k + 1;
        }
        proof {
            assert(events@.take(events@.len() as int) =~= events@);
        }
    }

    /// Step 5 of a tick: any `Deadly` event in the list ends the match.
    fn apply_terminal(&mut self, events: &Vec<CollisionEvent>)
        ensures
            final(self)@ == (StateModel {
                alive: old(self)@.alive && !has_deadly(events@),
                ..old(self)@
            }),
    {
        let mut dead = false;
        let mut k: usize = 0;
        while k < events.len()
            invariant
                0 <= k <= events@.len(),
                *self == *old(self),
                dead == has_deadly(events@.take(k as int)),
            decreases events@.len() - k,
        {
            let ghost pre = events@.take(k as int);
            match events[k] {
                CollisionEvent::Deadly => {
                    dead = true;
                },
                CollisionEvent::Safe => {},
            }
            proof {
                let post = events@.take(k as int + 1);
                assert(post.last() == events@[k as int]);
                if has_deadly(post) {
                    let j = choose|j: int| 0 <= j < post.len() && post[j] is Deadly;
                    assert(j < pre.len() ==> pre[j] is Deadly);
                }
                if has_deadly(pre) {
                    let j = choose|j: int| 0 <= j < pre.len() && pre[j] is Deadly;
                    assert(post[j] is Deadly);
                }
            }
            k = k + 1;
        }
        proof {
            assert(events@.take(events@.len() as int) =~= events@);
        }
        if dead {
            self.alive = false;
        }
        proof {
            assert(self@ =~= StateModel {
                alive: old(self)@.alive && !has_deadly(events@),
                ..old(self)@
            });
        }
    }

    /// One deterministic tick of the transition engine under the two
    /// players' command bytes for this frame, in the fixed order:
    /// direction update, move, collision check, growth, terminal check.
    /// A dead state is left untouched.  The returned events are the
    /// collisions found this tick; they are never persisted.
    pub fn tick(&mut self, cmd0: u8, cmd1: u8) -> (events: Vec<CollisionEvent>)
        requires
            wf(old(self)@),
        ensures
            final(self)@ == tick_spec(old(self)@, cmd0, cmd1),
            wf(final(self)@),
            has_deadly(events@) == tick_deadly(old(self)@, cmd0, cmd1),
            has_safe(events@) == tick_safe(old(self)@, cmd0, cmd1),
    {
        let ghost m = old(self)@;
        proof {
            lemma_tick_preserves_wf(m, cmd0, cmd1);
        }
        if !self.alive {
            let events: Vec<CollisionEvent> = Vec::new();
            return events;
        }
        self.apply_command(cmd0);
        self.apply_command(cmd1);
        let ghost m1 = self@;
        proof {
            assert(m1 == directed(m, cmd0, cmd1));
            lemma_directed_facts(m, cmd0, cmd1);
            assert(seg_in_bounds(m, m.segs[0]));
            assert(m1.segs[0].x == m.segs[0].x && m1.segs[0].y == m.segs[0].y);
        }
        self.move_step();
        let ghost m2 = self@;
        proof {
            assert(m2 == moved(m, cmd0, cmd1));
        }
        let events = self.check_collisions();
        let ghost m2f = self@;
        proof {
            // Bounds for the tail the growth step may extend: a non-head
            // tail is a pre-move segment, on the field; a single-segment
            // tail is the moved head, at most one cell off the field.
            let tl = m2.segs.len() - 1;
            if tl >= 1 {
                assert(m2.segs[tl as int] == m1.segs[tl - 1]);
                assert(seg_in_bounds(m, m.segs[tl - 1]));
            } else {
                assert(m2.segs[0] == head_moved(m1.segs[0]));
            }
            assert(m2f.segs == m2.segs);
        }
        self.add_segments(&events);
        self.apply_terminal(&events);
        proof {
            assert(self@ =~= tick_spec(m, cmd0, cmd1));
        }
        events
    }
}

} // verus!
