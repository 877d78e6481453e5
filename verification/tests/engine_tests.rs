use snek_core::codec::encode_intent;
use snek_core::state::{GameState, Pos, Segment};
use snek_core::Direction;

const NOOP: u8 = 0;

fn cmd(d: Direction) -> u8 {
    encode_intent(Some(d)).inp
}

fn seg(x: i64, y: i64, d: Direction) -> Segment {
    Segment { curr_dir: d, next_dir: d, pos: Pos { x, y } }
}

fn positions(state: &GameState) -> Vec<(i64, i64)> {
    state.segments.iter().map(|s| (s.pos.x, s.pos.y)).collect()
}

/// Single-segment snake at the origin facing up on a field bounded at
/// five cells: each tick moves it one cell up; reaching the boundary row
/// is survivable, one tick beyond it is deadly.
#[test]
fn single_segment_walks_into_the_wall() {
    let mut state = GameState::new(5, 5);
    assert!(state.is_well_formed());
    let events = state.tick(NOOP, NOOP);
    assert!(events.is_empty());
    assert_eq!(positions(&state), vec![(0, 1)]);
    assert!(state.alive);
    for expected_y in 2..=5 {
        state.tick(NOOP, NOOP);
        assert!(state.alive);
        assert_eq!(positions(&state), vec![(0, expected_y)]);
    }
    // One more step leaves the field: a deadly collision.
    let events = state.tick(NOOP, NOOP);
    assert_eq!(events.len(), 1);
    assert!(!state.alive);
    assert_eq!(positions(&state), vec![(0, 6)]);
    // A dead state is left untouched by further ticks.
    let events = state.tick(NOOP, NOOP);
    assert!(events.is_empty());
    assert_eq!(positions(&state), vec![(0, 6)]);
}

/// Shift-register propagation: a three-segment column moving up shifts
/// every segment into its predecessor's place.
#[test]
fn three_segment_shift_register() {
    let state0 = GameState {
        half_width: 5,
        half_height: 5,
        segments: vec![
            seg(0, 2, Direction::Up),
            seg(0, 1, Direction::Up),
            seg(0, 0, Direction::Up),
        ],
        food: None,
        alive: true,
    };
    let mut state = state0;
    assert!(state.is_well_formed());
    state.tick(NOOP, NOOP);
    assert!(state.alive);
    assert_eq!(positions(&state), vec![(0, 3), (0, 2), (0, 1)]);
}

/// Reverse-rejection: commanding the exact opposite of the head's current
/// direction changes nothing; the snake keeps moving as before.
#[test]
fn reverse_command_is_dropped() {
    let mut state = GameState::new(5, 5);
    state.tick(cmd(Direction::Down), NOOP);
    assert!(state.alive);
    // The snake still moved up, and still buffers "up".
    assert_eq!(positions(&state), vec![(0, 1)]);
    assert_eq!(state.segments[0].curr_dir, Direction::Up);
    assert_eq!(state.segments[0].next_dir, Direction::Up);
}

/// A sideways command turns the head on the same tick.
#[test]
fn turn_command_is_applied() {
    let mut state = GameState::new(5, 5);
    state.tick(cmd(Direction::Right), NOOP);
    assert!(state.alive);
    assert_eq!(positions(&state), vec![(1, 0)]);
    assert_eq!(state.segments[0].curr_dir, Direction::Right);
}

/// The second player's command is applied after the first player's for
/// the same frame, so it wins the head's direction buffer.
#[test]
fn later_slot_overrides_direction() {
    let mut state = GameState::new(5, 5);
    state.tick(cmd(Direction::Right), cmd(Direction::Left));
    // "Left" reverses "Right" only after "Right" was committed; both were
    // buffered before the move, so the later one stands.
    assert_eq!(positions(&state), vec![(-1, 0)]);
    assert_eq!(state.segments[0].curr_dir, Direction::Left);
}

/// Eating food: a safe collision removes the food and appends a segment
/// one cell behind the tail, against the tail's direction.
#[test]
fn eating_food_grows_the_snake() {
    let mut state = GameState {
        half_width: 5,
        half_height: 5,
        segments: vec![seg(0, 0, Direction::Up)],
        food: Some(Pos { x: 0, y: 1 }),
        alive: true,
    };
    assert!(state.is_well_formed());
    let events = state.tick(NOOP, NOOP);
    assert_eq!(events.len(), 1);
    assert!(state.alive);
    assert_eq!(state.food, None);
    assert_eq!(positions(&state), vec![(0, 1), (0, 0)]);
    assert_eq!(state.segments[1].curr_dir, Direction::Up);
}

/// Growth placement for a longer snake: the new tail sits one cell behind
/// the post-move tail along the tail's committed direction.
#[test]
fn growth_placement_behind_tail() {
    let mut state = GameState {
        half_width: 5,
        half_height: 5,
        segments: vec![
            seg(0, 2, Direction::Up),
            seg(0, 1, Direction::Up),
            seg(0, 0, Direction::Up),
        ],
        food: Some(Pos { x: 0, y: 3 }),
        alive: true,
    };
    assert!(state.is_well_formed());
    state.tick(NOOP, NOOP);
    assert!(state.alive);
    assert_eq!(state.food, None);
    assert_eq!(positions(&state), vec![(0, 3), (0, 2), (0, 1), (0, 0)]);
}

/// Food exclusivity: after any tick the food cell, when present, is
/// disjoint from every segment.
#[test]
fn food_stays_disjoint_from_snake() {
    let mut state = GameState {
        half_width: 5,
        half_height: 5,
        segments: vec![
            seg(0, 2, Direction::Up),
            seg(0, 1, Direction::Up),
            seg(0, 0, Direction::Up),
        ],
        food: Some(Pos { x: 3, y: 3 }),
        alive: true,
    };
    for _ in 0..3 {
        state.tick(cmd(Direction::Right), NOOP);
        if let Some(p) = state.food {
            for s in state.segments.iter() {
                assert!(!(s.pos.x == p.x && s.pos.y == p.y));
            }
        }
        assert!(state.is_well_formed());
    }
}

/// Self-collision: the head entering a cell still occupied after the move
/// is deadly.
#[test]
fn running_into_own_body_is_deadly() {
    let mut state = GameState {
        half_width: 5,
        half_height: 5,
        segments: vec![
            seg(0, 0, Direction::Up),
            seg(0, 1, Direction::Up),
            seg(1, 0, Direction::Right),
        ],
        food: None,
        alive: true,
    };
    assert!(state.is_well_formed());
    let events = state.tick(NOOP, NOOP);
    assert_eq!(events.len(), 1);
    assert!(!state.alive);
}

/// The boundary test is symmetric: the last row inside each wall is
/// survivable on all four sides.
#[test]
fn boundary_edges_are_exact() {
    for (d, x, y) in [
        (Direction::Up, 0i64, 5i64),
        (Direction::Down, 0, -5),
        (Direction::Left, -5, 0),
        (Direction::Right, 5, 0),
    ] {
        let mut state = GameState {
            half_width: 5,
            half_height: 5,
            segments: vec![seg(x, y, d)],
            food: None,
            alive: true,
        };
        assert!(state.is_well_formed());
        let events = state.tick(NOOP, NOOP);
        assert!(!state.alive, "one step past ({x},{y}) must be deadly");
        assert_eq!(events.len(), 1);
    }
}

/// Determinism: ticking two identical states with the same commands gives
/// identical states, field for field, at every step.
#[test]
fn identical_runs_stay_identical() {
    let mut a = GameState::new(5, 7);
    let mut b = GameState::new(5, 7);
    let script = [
        (cmd(Direction::Right), NOOP),
        (NOOP, cmd(Direction::Up)),
        (cmd(Direction::Left), cmd(Direction::Up)),
        (NOOP, NOOP),
    ];
    for (c0, c1) in script {
        a.tick(c0, c1);
        b.tick(c0, c1);
        assert_eq!(a.segments, b.segments);
        assert_eq!(a.food, b.food);
        assert_eq!(a.alive, b.alive);
    }
}

/// Snapshots are exact copies: resimulating from a snapshot matches the
/// uninterrupted run.
#[test]
fn snapshot_restores_exactly() {
    let mut a = GameState::new(5, 5);
    a.tick(cmd(Direction::Right), NOOP);
    let snap = a.snapshot();
    assert_eq!(a.segments, snap.segments);
    assert_eq!(a.food, snap.food);
    assert_eq!(a.alive, snap.alive);
    let mut b = snap;
    a.tick(NOOP, NOOP);
    b.tick(NOOP, NOOP);
    assert_eq!(a.segments, b.segments);
}

/// Placement logic of the spawner: only a free on-field cell takes food,
/// and only when none is present.
#[test]
fn try_place_food_rules() {
    let mut state = GameState::new(5, 5);
    assert!(!state.try_place_food(0, 0), "occupied by the head");
    assert!(!state.try_place_food(6, 0), "outside the field");
    assert!(!state.try_place_food(0, -6), "outside the field");
    assert!(state.try_place_food(2, 3));
    assert_eq!(state.food, Some(Pos { x: 2, y: 3 }));
    assert!(!state.try_place_food(1, 1), "food already present");
    assert_eq!(state.food, Some(Pos { x: 2, y: 3 }));
    assert!(state.is_well_formed());
}

/// The random spawner lands on a free cell of the field.  The draw comes
/// from the random number generator, so this exercises the full path: a
/// draw outside the field could never place food.
#[test]
fn spawn_food_lands_on_free_cell() {
    let mut state = GameState::new(5, 5);
    let placed = state.spawn_food();
    assert!(placed);
    let p = state.food.expect("food was placed");
    assert!(-5 <= p.x && p.x <= 5);
    assert!(-5 <= p.y && p.y <= 5);
    for s in state.segments.iter() {
        assert!(!(s.pos.x == p.x && s.pos.y == p.y));
    }
    assert!(!state.spawn_food(), "spawner is a no-op while food exists");
    assert!(state.is_well_formed());
}

/// A state that breaks an invariant is rejected by the runtime check.
#[test]
fn well_formedness_check_rejects_bad_states() {
    let empty = GameState {
        half_width: 5,
        half_height: 5,
        segments: vec![],
        food: None,
        alive: true,
    };
    assert!(!empty.is_well_formed());
    let off_field = GameState {
        half_width: 5,
        half_height: 5,
        segments: vec![seg(9, 0, Direction::Up)],
        food: None,
        alive: true,
    };
    assert!(!off_field.is_well_formed());
    let food_on_snake = GameState {
        half_width: 5,
        half_height: 5,
        segments: vec![seg(0, 0, Direction::Up)],
        food: Some(Pos { x: 0, y: 0 }),
        alive: true,
    };
    assert!(!food_on_snake.is_well_formed());
}
