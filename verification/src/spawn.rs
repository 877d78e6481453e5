use vstd::prelude::*;

use rand::Rng;

use crate::state::{GameState, Pos, PosModel, StateModel, pos_in_bounds, food_clear, wf};

verus! {

/// Relies on rand's `Rng::gen_range` on a half-open `i64` range: it panics
/// on an empty range and otherwise returns a uniformly drawn value inside
/// the range.  Nothing more is assumed of the draw: every caller must be
/// correct for every value in the range.
#[verifier::external_body]
fn rand_range(lo: i64, hi: i64) -> (r: i64)
    requires
        lo < hi,
    ensures
        lo <= r < hi,
{
    rand::thread_rng().gen_range(lo..hi)
}

impl GameState {
    /// Deterministic half of the spawner: place food on the candidate cell
    /// exactly when no food is present, the cell is on the play field and
    /// no segment occupies it.  Everything else is left untouched.
    pub fn try_place_food(&mut self, x: i64, y: i64) -> (placed: bool)
        requires
            wf(old(self)@),
        ensures
            wf(final(self)@),
            placed == (old(self)@.food is None
                && pos_in_bounds(old(self)@, x as int, y as int)
                && (forall|i: int| 0 <= i < old(self)@.segs.len()
                    ==> !((#[trigger] old(self)@.segs[i]).x == x as int
                        && old(self)@.segs[i].y == y as int))),
            placed ==> final(self)@ == (StateModel {
                food: Option::Some(PosModel { x: x as int, y: y as int }),
                ..old(self)@
            }),
            !placed ==> *final(self) == *old(self),
    {
        let ghost m = self@;
        match self.food {
            Option::Some(_) => {
                return false;
            },
            Option::None => {},
        }
        let on_field = -self.half_width <= x && x <= self.half_width
            && -self.half_height <= y && y <= self.half_height;
        if !on_field {
            return false;
        }
        let mut i: usize = 0;
        while i < self.segments.len()
            invariant
                *self == *old(self),
                m == self@,
                wf(self@),
                0 <= i <= self.segments.len(),
                forall|j: int| 0 <= j < i ==> !((#[trigger] m.segs[j]).x == x as int
                    && m.segs[j].y == y as int),
            decreases self.segments.len() - i,
        {
            let s = self.segments[i];
            proof {
                assert(m.segs[i as int] == s@);
            }
            if s.pos.x == x && s.pos.y == y {
                return false;
            }
            i = i + 1;
        }
        self.food = Option::Some(Pos { x, y });
        proof {
            assert(self@ =~= (StateModel {
                food: Option::Some(PosModel { x: x as int, y: y as int }),
                ..m
            }));
            assert(food_clear(self@));
            assert forall|j: int| self@.alive && 0 <= j < self@.segs.len()
                implies crate::state::seg_in_bounds(self@, #[trigger] self@.segs[j]) by {
                assert(crate::state::seg_in_bounds(m, m.segs[j]));
            }
            assert forall|j: int| self@.alive && 0 <= j < self@.segs.len() - 1
                implies crate::state::seg_good(self@, #[trigger] self@.segs[j]) by {
                assert(crate::state::seg_good(m, m.segs[j]));
            }
        }
        true
    }

    /// The periodic food spawner: when no food is present, draw random
    /// cells until a free one is found, giving up after as many attempts
    /// as the field has cells when the draws keep landing on the snake.
    /// The draw is random, so nothing promises that food appears; whatever
    /// the draws were, the state stays well-formed, the snake is untouched,
    /// and any food placed sits on a free cell of the field.
    pub fn spawn_food(&mut self) -> (placed: bool)
        requires
            wf(old(self)@),
        ensures
            wf(final(self)@),
            final(self)@.segs == old(self)@.segs,
            final(self)@.alive == old(self)@.alive,
            final(self)@.half_w == old(self)@.half_w,
            final(self)@.half_h == old(self)@.half_h,
            old(self)@.food is Some ==> !placed && *final(self) == *old(self),
            !placed ==> *final(self) == *old(self),
            placed ==> old(self)@.food is None && final(self)@.food is Some,
            placed ==> (match final(self)@.food {
                Option::Some(p) => pos_in_bounds(final(self)@, p.x, p.y)
                    && (forall|i: int| 0 <= i < final(self)@.segs.len()
                        ==> !((#[trigger] final(self)@.segs[i]).x == p.x
                            && final(self)@.segs[i].y == p.y)),
                Option::None => false,
            }),
    {
        match self.food {
            Option::Some(_) => {
                return false;
            },
            Option::None => {},
        }
        let width: i64 = 2 * self.half_width + 1;
        let height: i64 = 2 * self.half_height + 1;
        proof {
            assert(width * height <= 2_000_001 * 2_000_001) by (nonlinear_arith)
                requires
                    0 < width <= 2_000_001,
                    0 < height <= 2_000_001,
            ;
        }
        let cells: i64 = width * height;
        let mut tries: i64 = 0;
        while tries < cells
            invariant
                *self == *old(self),
                wf(self@),
                self@.food is None,
            decreases cells - tries,
        {
            let x = rand_range(-self.half_width, self.half_width + 1);
            let y = rand_range(-self.half_height, self.half_height + 1);
            if self.try_place_food(x, y) {
                return true;
            }
            tries = tries + 1;
        }
        false
    }
}

} // verus!
