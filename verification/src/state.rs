use vstd::prelude::*;

use crate::direction::{Direction, dx, dy};

verus! {

/// Largest half-extent (in cells) a play field may have.  Keeping the grid
/// this small makes every coordinate computation fit comfortably in `i64`.
pub const MAX_HALF_EXTENT: i64 = 1_000_000;

/// A cell position on the play field.  The origin is the centre cell; the
/// field spans `-half_width ..= half_width` horizontally and
/// `-half_height ..= half_height` vertically.
#[derive(Clone, Copy, Debug, PartialEq, Eq, Structural)]
pub struct Pos {
    pub x: i64,
    pub y: i64,
}

/// One snake body element.  `next_dir` is a one-tick-delayed buffer: player
/// input changes `next_dir`, and the transition engine commits it into
/// `curr_dir` only when the segment is actually advanced.
#[derive(Clone, Copy, Debug, PartialEq, Eq, Structural)]
pub struct Segment {
    pub curr_dir: Direction,
    pub next_dir: Direction,
    pub pos: Pos,
}

/// Mathematical model of a position.
pub struct PosModel {
    pub x: int,
    pub y: int,
}

/// Mathematical model of a segment.
pub struct SegModel {
    pub curr: Direction,
    pub next: Direction,
    pub x: int,
    pub y: int,
}

/// Mathematical model of the whole simulation state.
#[verifier::ext_equal]
pub struct StateModel {
    pub half_w: int,
    pub half_h: int,
    pub segs: Seq<SegModel>,
    pub food: Option<PosModel>,
    pub alive: bool,
}

impl View for Segment {
    type V = SegModel;

    open spec fn view(&self) -> SegModel {
        SegModel { curr: self.curr_dir, next: self.next_dir, x: self.pos.x as int, y: self.pos.y as int }
    }
}

/// The simulation state: the snake's segment chain (index 0 is the head),
/// the optional food cell, the alive flag and the field dimensions.  This is
/// also the rollback snapshot unit: a value of this type is a complete,
/// exact capture of everything the transition engine reads or writes.
pub struct GameState {
    pub half_width: i64,
    pub half_height: i64,
    pub segments: Vec<Segment>,
    pub food: Option<Pos>,
    pub alive: bool,
}

impl View for GameState {
    type V = StateModel;

    open spec fn view(&self) -> StateModel {
        StateModel {
            half_w: self.half_width as int,
            half_h: self.half_height as int,
            segs: self.segments@.map_values(|s: Segment| s@),
            food: match self.food {
                Option::Some(p) => Option::Some(PosModel { x: p.x as int, y: p.y as int }),
                Option::None => Option::None,
            },
            alive: self.alive,
        }
    }
}

/// The field dimensions are positive and small enough that one-cell steps
/// can never overflow an `i64`.
pub open spec fn grid_wf(m: StateModel) -> bool {
    &&& 1 <= m.half_w <= MAX_HALF_EXTENT as int
    &&& 1 <= m.half_h <= MAX_HALF_EXTENT as int
}

/// Whether the cell `(x, y)` lies on the play field: the boundary test
/// compares each coordinate's magnitude against the half-extent of the
/// field in that axis.
pub open spec fn pos_in_bounds(m: StateModel, x: int, y: int) -> bool {
    &&& -m.half_w <= x <= m.half_w
    &&& -m.half_h <= y <= m.half_h
}

/// Whether a segment sits on the play field.
pub open spec fn seg_in_bounds(m: StateModel, s: SegModel) -> bool {
    pos_in_bounds(m, s.x, s.y)
}

/// A segment is `good` when both it and the cell it came from (one step
/// behind it, against its committed direction) are on the play field.  The
/// growth step appends the new tail exactly on that trailing cell, so this
/// is what keeps growth on the field.
pub open spec fn seg_good(m: StateModel, s: SegModel) -> bool {
    &&& seg_in_bounds(m, s)
    &&& pos_in_bounds(m, s.x - dx(s.curr), s.y - dy(s.curr))
}

/// Food exclusivity: the food cell, when present, is on the field and
/// disjoint from every segment position.
pub open spec fn food_clear(m: StateModel) -> bool {
    match m.food {
        Option::None => true,
        Option::Some(p) => {
            &&& pos_in_bounds(m, p.x, p.y)
            &&& forall|i: int| 0 <= i < m.segs.len() ==> !(m.segs[i].x == p.x && m.segs[i].y == p.y)
        },
    }
}

/// Well-formedness of a simulation state.  The snake is never empty; while
/// the match is alive every segment is on the field and every segment but
/// the tail is `good`; the food cell is disjoint from the snake.
pub open spec fn wf(m: StateModel) -> bool {
    &&& grid_wf(m)
    &&& m.segs.len() >= 1
    &&& m.alive ==> forall|i: int| 0 <= i < m.segs.len() ==> seg_in_bounds(m, #[trigger] m.segs[i])
    &&& m.alive ==> forall|i: int| 0 <= i < m.segs.len() - 1 ==> seg_good(m, #[trigger] m.segs[i])
    &&& food_clear(m)
}

/// The state a match starts in: a single head segment at the origin facing
/// up, no food, alive.
pub open spec fn initial_model(hw: int, hh: int) -> StateModel {
    StateModel {
        half_w: hw,
        half_h: hh,
        segs: seq![SegModel { curr: Direction::Up, next: Direction::Up, x: 0, y: 0 }],
        food: Option::None,
        alive: true,
    }
}

impl GameState {
    /// Build the starting state of a match on a field with the given
    /// half-extents.
    pub fn new(half_width: i64, half_height: i64) -> (r: GameState)
        requires
            1 <= half_width <= MAX_HALF_EXTENT,
            1 <= half_height <= MAX_HALF_EXTENT,
        ensures
            r@ == initial_model(half_width as int, half_height as int),
            wf(r@),
    {
        let head = Segment {
            curr_dir: Direction::Up,
            next_dir: Direction::Up,
            pos: Pos { x: 0, y: 0 },
        };
        let mut segments: Vec<Segment> = Vec::new();
        segments.push(head);
        let r = GameState { half_width, half_height, segments, food: Option::None, alive: true };
        proof {
            assert(r@.segs =~= initial_model(half_width as int, half_height as int).segs);
            assert(r@ =~= initial_model(half_width as int, half_height as int));
        }
        r
    }

    /// An exact copy of the state: the rollback snapshot operation.  The
    /// copy's model is identical to the original's, so resimulating from it
    /// is indistinguishable from resimulating from the original.
    pub fn snapshot(&self) -> (r: GameState)
        ensures
            r@ == self@,
    {
        let mut segments: Vec<Segment> = Vec::new();
        let mut i: usize = 0;
        while i < self.segments.len()
            invariant
                i <= self.segments.len(),
                segments@ =~= self.segments@.subrange(0, i as int),
            decreases self.segments.len() - i,
        {
            segments.push(self.segments[i]);
            i = i + 1;
        }
        proof {
            assert(segments@ =~= self.segments@);
        }
        let r = GameState {
            half_width: self.half_width,
            half_height: self.half_height,
            segments,
            food: self.food,
            alive: self.alive,
        };
        proof {
            assert(r@ =~= self@);
        }
        r
    }

    /// Runtime check of the well-formedness invariant, for callers outside
    /// the verified library that assemble a state by hand.
    pub fn is_well_formed(&self) -> (r: bool)
        ensures
            r == wf(self@),
    {
        if !(1 <= self.half_width && self.half_width <= MAX_HALF_EXTENT
            && 1 <= self.half_height && self.half_height <= MAX_HALF_EXTENT) {
            return false;
        }
        if self.segments.len() == 0 {
            return false;
        }
        let ghost m = self@;
        if self.alive {
            let mut i: usize = 0;
            while i < self.segments.len()
                invariant
                    i <= self.segments.len(),
                    m == self@,
                    m.alive,
                    grid_wf(m),
                    self.segments.len() >= 1,
                    forall|j: int| 0 <= j < i ==> seg_in_bounds(m, #[trigger] m.segs[j]),
                    forall|j: int| 0 <= j < i && j < m.segs.len() - 1 ==> seg_good(m, #[trigger] m.segs[j]),
                decreases self.segments.len() - i,
            {
                let s = self.segments[i];
                proof {
                    assert(m.segs[i as int] == s@);
                }
                let bx = -self.half_width <= s.pos.x && s.pos.x <= self.half_width;
                let by = -self.half_height <= s.pos.y && s.pos.y <= self.half_height;
                if !(bx && by) {
                    proof {
                        assert(!seg_in_bounds(m, m.segs[i as int]));
                        assert(!wf(m));
                    }
                    return false;
                }
                if i < self.segments.len() - 1 {
                    let px = s.pos.x - crate::direction::step_dx(s.curr_dir);
                    let py = s.pos.y - crate::direction::step_dy(s.curr_dir);
                    let gx = -self.half_width <= px && px <= self.half_width;
                    let gy = -self.half_height <= py && py <= self.half_height;
                    if !(gx && gy) {
                        proof {
                            assert(!seg_good(m, m.segs[i as int]));
                            assert(!wf(m));
                        }
                        return false;
                    }
                }
                i = i + 1;
            }
        }
        match self.food {
            Option::None => true,
            Option::Some(p) => {
                let fx = -self.half_width <= p.x && p.x <= self.half_width;
                let fy = -self.half_height <= p.y && p.y <= self.half_height;
                if !(fx && fy) {
                    return false;
                }
                let mut i: usize = 0;
                while i < self.segments.len()
                    invariant
                        i <= self.segments.len(),
                        m == self@,
                        m.food == Option::Some(PosModel { x: p.x as int, y: p.y as int }),
                        forall|j: int| 0 <= j < i ==> !(#[trigger] m.segs[j].x == p.x as int && m.segs[j].y == p.y as int),
                    decreases self.segments.len() - i,
                {
                    let s = self.segments[i];
                    proof {
                        assert(m.segs[i as int] == s@);
                    }
                    if s.pos.x == p.x && s.pos.y == p.y {
                        proof {
                            assert(!food_clear(m));
                        }
                        return false;
                    }
                    i = i + 1;
                }
                true
            },
        }
    }
}

} // verus!
