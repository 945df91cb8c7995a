use life_board::board::{Board, Handle, InvalidDimension, StepChange, SENTINEL_HANDLE_ID};

// Smoke test: three cells in the first column, then print the board's
// text picture.
#[test]
fn test_board() {
    let mut b = Board::new(4, 4).unwrap();
    b.set(0, 0, true);
    b.set(0, 1, true);
    b.set(0, 2, true);
    println!("{}", b.to_display_string());
}

// Constructing a board with a zero dimension fails with InvalidDimension.
#[test]
fn zero_dimensions_are_rejected() {
    assert!(matches!(Board::new(0, 4), Err(InvalidDimension)));
    assert!(matches!(Board::new(4, 0), Err(InvalidDimension)));
    assert!(matches!(Board::new(0, 0), Err(InvalidDimension)));
    assert!(Board::new(1, 1).is_ok());
}

// A new board is all dead and every handle is the sentinel.
#[test]
fn new_board_is_dead_with_sentinel_handles() {
    let b = Board::new(3, 5).unwrap();
    assert_eq!(b.width, 3);
    assert_eq!(b.height, 5);
    for y in 0..5 {
        for x in 0..3 {
            assert!(!b.get(x, y));
            assert_eq!(b.get_entity(x, y), Handle { id: SENTINEL_HANDLE_ID });
        }
    }
}

// set followed by get returns the value written, for every cell and value.
#[test]
fn set_then_get_round_trip() {
    let mut b = Board::new(3, 5).unwrap();
    for y in 0..5 {
        for x in 0..3 {
            b.set(x, y, true);
            assert!(b.get(x, y));
            b.set(x, y, false);
            assert!(!b.get(x, y));
        }
    }
}

// Writing a handle never alters any cell state, and writing a cell state
// never alters any handle.
#[test]
fn handles_do_not_interfere_with_cells() {
    let mut b = Board::new(4, 4).unwrap();
    b.set(1, 2, true);
    b.set_entity(1, 2, Handle { id: 77 });
    b.set_entity(3, 3, Handle { id: 9 });
    for y in 0..4 {
        for x in 0..4 {
            assert_eq!(b.get(x, y), x == 1 && y == 2);
        }
    }
    b.set(3, 3, true);
    b.set(1, 2, false);
    assert_eq!(b.get_entity(1, 2), Handle { id: 77 });
    assert_eq!(b.get_entity(3, 3), Handle { id: 9 });
    for y in 0..4 {
        for x in 0..4 {
            if !(x == 1 && y == 2 || x == 3 && y == 3) {
                assert_eq!(b.get_entity(x, y), Handle { id: SENTINEL_HANDLE_ID });
            }
        }
    }
}

// The neighbor set of (0, 0) wraps around: the opposite corner
// (width - 1, height - 1) is its diagonal neighbor.
#[test]
fn toroidal_wraparound_at_origin() {
    let mut b = Board::new(5, 7).unwrap();
    b.set(4, 6, true);
    let view = b.snapshot();
    assert_eq!(view.count_alive_neighbors(0, 0), 1);
}

// On a one-cell grid all eight offsets wrap back onto the cell itself.
#[test]
fn one_cell_grid_is_its_own_neighbor() {
    let mut b = Board::new(1, 1).unwrap();
    assert_eq!(b.snapshot().count_alive_neighbors(0, 0), 0);
    b.set(0, 0, true);
    assert_eq!(b.snapshot().count_alive_neighbors(0, 0), 8);
}

// Underpopulation: a single live cell with no live neighbors dies.
#[test]
fn lone_cell_dies() {
    let mut b = Board::new(4, 4).unwrap();
    b.set(1, 1, true);
    let changes = b.step_board();
    for y in 0..4 {
        for x in 0..4 {
            assert!(!b.get(x, y));
        }
    }
    assert_eq!(changes.len(), 1);
    assert_eq!(
        changes[0],
        StepChange { x: 1, y: 1, was_alive: true, now_alive: false }
    );
}

// Birth: an L of three live cells completes to a 2x2 block, the new cell
// born by the rule for exactly three live neighbors.
#[test]
fn l_shape_births_fourth_cell() {
    let mut b = Board::new(4, 4).unwrap();
    b.set(1, 1, true);
    b.set(2, 1, true);
    b.set(1, 2, true);
    let changes = b.step_board();
    for y in 0..4 {
        for x in 0..4 {
            let expect = (x == 1 || x == 2) && (y == 1 || y == 2);
            assert_eq!(b.get(x, y), expect);
        }
    }
    assert_eq!(changes.len(), 1);
    assert_eq!(
        changes[0],
        StepChange { x: 2, y: 2, was_alive: false, now_alive: true }
    );
}

// Still life: a 2x2 block is unchanged by a step and reports no changes.
#[test]
fn block_is_still_life() {
    let mut b = Board::new(4, 4).unwrap();
    b.set(1, 1, true);
    b.set(2, 1, true);
    b.set(1, 2, true);
    b.set(2, 2, true);
    let changes = b.step_board();
    for y in 0..4 {
        for x in 0..4 {
            let expect = (x == 1 || x == 2) && (y == 1 || y == 2);
            assert_eq!(b.get(x, y), expect);
        }
    }
    assert!(changes.is_empty());
}

// Overpopulation: a live cell with four live neighbors dies.
#[test]
fn crowded_cell_dies() {
    let mut b = Board::new(4, 4).unwrap();
    b.set(1, 1, true);
    b.set(0, 0, true);
    b.set(2, 0, true);
    b.set(0, 2, true);
    b.set(2, 2, true);
    assert_eq!(b.snapshot().count_alive_neighbors(1, 1), 4);
    b.step_board();
    assert!(!b.get(1, 1));
}

// Determinism: stepping two boards with identical configurations yields
// identical results, cell for cell.
#[test]
fn step_is_deterministic() {
    let pattern = [(0usize, 0usize), (2, 1), (3, 1), (1, 2), (4, 4), (0, 3)];
    let mut a = Board::new(5, 5).unwrap();
    let mut b = Board::new(5, 5).unwrap();
    for &(x, y) in pattern.iter() {
        a.set(x, y, true);
        b.set(x, y, true);
    }
    let ca = a.step_board();
    let cb = b.step_board();
    assert_eq!(ca, cb);
    for y in 0..5 {
        for x in 0..5 {
            assert_eq!(a.get(x, y), b.get(x, y));
        }
    }
}

// The change list is exactly the changed cells, in row-major order.
#[test]
fn changes_are_ordered_and_exact() {
    let mut b = Board::new(4, 4).unwrap();
    b.set(1, 1, true);
    b.set(2, 1, true);
    b.set(3, 1, true);
    let before: Vec<bool> = (0..16).map(|i| b.get(i % 4, i / 4)).collect();
    let changes = b.step_board();
    let after: Vec<bool> = (0..16).map(|i| b.get(i % 4, i / 4)).collect();
    let mut last_index = None;
    for c in changes.iter() {
        let i = c.y * 4 + c.x;
        assert_eq!(before[i], c.was_alive);
        assert_eq!(after[i], c.now_alive);
        assert_ne!(c.was_alive, c.now_alive);
        if let Some(prev) = last_index {
            assert!(i > prev);
        }
        last_index = Some(i);
    }
    for i in 0..16 {
        if before[i] != after[i] {
            assert!(changes.iter().any(|c| c.y * 4 + c.x == i));
        }
    }
}

// A snapshot is decoupled from the live board: later writes do not show
// through it.
#[test]
fn snapshot_is_immutable() {
    let mut b = Board::new(3, 3).unwrap();
    b.set(0, 0, true);
    let view = b.snapshot();
    b.set(0, 0, false);
    b.set(2, 2, true);
    assert!(view.get(0, 0));
    assert!(!view.get(2, 2));
    assert!(!b.get(0, 0));
}

// step_cell agrees with the snapshot view's next_state.
#[test]
fn step_cell_matches_view() {
    let mut b = Board::new(4, 4).unwrap();
    b.set(1, 1, true);
    b.set(2, 1, true);
    b.set(1, 2, true);
    let view = b.snapshot();
    for y in 0..4 {
        for x in 0..4 {
            assert_eq!(b.step_cell(x, y), view.next_state(x, y));
        }
    }
}
