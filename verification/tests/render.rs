use life_board::board::Board;

// One dead cell: shown with its zero neighbor count, one line for the only
// column, then the closing blank line.
#[test]
fn render_single_dead_cell() {
    let b = Board::new(1, 1).unwrap();
    assert_eq!(b.to_display_string(), "_ (0) | \n\n");
}

// One live cell on a one-cell torus is its own neighbor through all eight
// offsets.
#[test]
fn render_single_live_cell() {
    let mut b = Board::new(1, 1).unwrap();
    b.set(0, 0, true);
    assert_eq!(b.to_display_string(), "X (8) | \n\n");
}

// A 2x2 grid with one live cell: each line is one grid column, and every
// cell carries its live-neighbor count under the doubled-up wraparound of
// so small a torus.
#[test]
fn render_two_by_two() {
    let mut b = Board::new(2, 2).unwrap();
    b.set(0, 0, true);
    assert_eq!(
        b.to_display_string(),
        "X (0) | _ (2) | \n_ (2) | _ (4) | \n\n"
    );
}
