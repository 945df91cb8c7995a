//! A plain-text picture of a generation, one cell as `X (n) | ` or
//! `_ (n) | ` where `n` is the cell's live-neighbor count, one grid column
//! per text line, and a blank line at the end.
//!
//! The text is specified character by character as a function of the grid,
//! so the verified renderer can promise the exact string it builds.

use vstd::prelude::*;

use crate::rules::{cell_at, count_alive, grid_read, neighbor_count};

verus! {

/// The single digit for a neighbor count, which is always in `0 ..= 8`.
pub open spec fn digit_text(n: int) -> Seq<char> {
    if n == 0 {
        seq!['0']
    } else if n == 1 {
        seq!['1']
    } else if n == 2 {
        seq!['2']
    } else if n == 3 {
        seq!['3']
    } else if n == 4 {
        seq!['4']
    } else if n == 5 {
        seq!['5']
    } else if n == 6 {
        seq!['6']
    } else if n == 7 {
        seq!['7']
    } else {
        seq!['8']
    }
}

/// The text for one cell: `X` for a live cell, `_` for a dead one, then
/// its neighbor count in parentheses and a column separator.
pub open spec fn cell_text(alive: bool, n: int) -> Seq<char> {
    (if alive {
        seq!['X', ' ', '(']
    } else {
        seq!['_', ' ', '(']
    }) + digit_text(n) + seq![')', ' ', '|', ' ']
}

/// The text for the first `rows` cells of grid column `x`, top down.
pub open spec fn column_text(g: Seq<bool>, w: int, h: int, x: int, rows: int) -> Seq<char>
    decreases rows,
{
    if rows <= 0 {
        Seq::empty()
    } else {
        column_text(g, w, h, x, rows - 1) + cell_text(
            cell_at(g, w, x, rows - 1),
            neighbor_count(g, w, h, x, rows - 1),
        )
    }
}

/// The text for the first `cols` grid columns, each a full line.
pub open spec fn columns_text(g: Seq<bool>, w: int, h: int, cols: int) -> Seq<char>
    decreases cols,
{
    if cols <= 0 {
        Seq::empty()
    } else {
        columns_text(g, w, h, cols - 1) + column_text(g, w, h, cols - 1, h) + seq!['\n']
    }
}

/// The whole picture: every grid column as a line, then a blank line.
pub open spec fn board_text(g: Seq<bool>, w: int, h: int) -> Seq<char> {
    columns_text(g, w, h, w) + seq!['\n']
}

/// Appends the single digit for a neighbor count.
fn append_digit(s: &mut String, n: usize)
    requires
        n <= 8,
    ensures
        final(s)@ == old(s)@ + digit_text(n as int),
{
    proof {
        reveal_strlit("0");
        reveal_strlit("1");
        reveal_strlit("2");
        reveal_strlit("3");
        reveal_strlit("4");
        reveal_strlit("5");
        reveal_strlit("6");
        reveal_strlit("7");
        reveal_strlit("8");
    }
    if n == 0 {
        s.append("0");
        proof {
            assert(s@ =~= old(s)@ + digit_text(n as int));
        }
    } else if n == 1 {
        s.append("1");
        proof {
            assert(s@ =~= old(s)@ + digit_text(n as int));
        }
    } else if n == 2 {
        s.append("2");
        proof {
            assert(s@ =~= old(s)@ + digit_text(n as int));
        }
    } else if n == 3 {
        s.append("3");
        proof {
            assert(s@ =~= old(s)@ + digit_text(n as int));
        }
    } else if n == 4 {
        s.append("4");
        proof {
            assert(s@ =~= old(s)@ + digit_text(n as int));
        }
    } else if n == 5 {
        s.append("5");
        proof {
            assert(s@ =~= old(s)@ + digit_text(n as int));
        }
    } else if n == 6 {
        s.append("6");
        proof {
            assert(s@ =~= old(s)@ + digit_text(n as int));
        }
    } else if n == 7 {
        s.append("7");
        proof {
            assert(s@ =~= old(s)@ + digit_text(n as int));
        }
    } else {
        s.append("8");
        proof {
            assert(s@ =~= old(s)@ + digit_text(n as int));
        }
    }
}

/// Builds the text picture of a grid.
pub fn render_grid(tiles: &Vec<bool>, width: usize, height: usize) -> (s: String)
    requires
        width > 0,
        height > 0,
        tiles@.len() == width * height,
    ensures
        s@ == board_text(tiles@, width as int, height as int),
{
    let ghost g = tiles@;
    let ghost w = width as int;
    let ghost h = height as int;
    let mut s = String::new();
    let mut x: usize = 0;
    while x < width
        invariant
            width > 0,
            height > 0,
            g == tiles@,
            g.len() == w * h,
            w == width as int,
            h == height as int,
            x <= width,
            s@ == columns_text(g, w, h, x as int),
        decreases width - x,
    {
        let mut y: usize = 0;
        proof {
            assert(s@ =~= columns_text(g, w, h, x as int) + column_text(g, w, h, x as int, 0));
        }
        while y < height
            invariant
                width > 0,
                height > 0,
                g == tiles@,
                g.len() == w * h,
                w == width as int,
                h == height as int,
                x < width,
                y <= height,
                s@ == columns_text(g, w, h, x as int) + column_text(g, w, h, x as int, y as int),
            decreases height - y,
        {
            let ghost s0 = s@;
            let alive = grid_read(tiles, width, height, x, y);
            let n = count_alive(tiles, width, height, x, y);
            if alive {
                s.append("X (");
                proof {
                    reveal_strlit("X (");
                    assert(s@ =~= s0 + seq!['X', ' ', '(']);
                }
            } else {
                s.append("_ (");
                proof {
                    reveal_strlit("_ (");
                    assert(s@ =~= s0 + seq!['_', ' ', '(']);
                }
            }
            append_digit(&mut s, n);
            s.append(") | ");
            proof {
                reveal_strlit(") | ");
                assert(s@ =~= s0 + cell_text(
                    cell_at(g, w, x as int, y as int),
                    neighbor_count(g, w, h, x as int, y as int),
                ));
                assert(s@ =~= columns_text(g, w, h, x as int) + column_text(
                    g,
                    w,
                    h,
                    x as int,
                    y as int + 1,
                ));
            }
            y = y + 1;
        }
        s.append("\n");
        proof {
            reveal_strlit("\n");
            assert(s@ =~= columns_text(g, w, h, x as int + 1));
        }
        x = x + 1;
    }
    s.append("\n");
    proof {
        reveal_strlit("\n");
        assert(s@ =~= board_text(g, w, h));
    }
    s
}

} // verus!
