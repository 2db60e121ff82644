//! The mathematical model of a puzzle and of the search for its solution.
//!
//! A board is a square grid of cells, read row by row. A layout names, for
//! every cell, a tile of the inventory and the number of quarter turns it is
//! given. The search fills the cells in reading order and, among all layouts
//! that obey the matching rule, finds the first one in search order.

use vstd::prelude::*;
use crate::tile::{compatible, Tile};

verus! {

/// One tile of the inventory, by index, and the quarter turns it is given.
pub struct Placement {
    pub tile: int,
    pub turns: int,
}

/// A placement for every cell of the board, row by row.
pub type Layout = Seq<Seq<Placement>>;

/// What a puzzle holds: the cells of the board, row by row, and the
/// inventory of tiles in their current orientation.
pub struct PuzzleView {
    pub board: Seq<Seq<Option<Tile>>>,
    pub tiles: Seq<Tile>,
}

/// Cell `(r, c)` lies on a board of side `n`, at `(row, col)` or after it in
/// reading order.
pub open spec fn in_span(n: int, row: int, col: int, r: int, c: int) -> bool {
    0 <= r < n && 0 <= c < n && (r > row || (r == row && c >= col))
}

/// Cell `(r1, c1)` comes strictly before `(r2, c2)` in reading order.
pub open spec fn earlier(r1: int, c1: int, r2: int, c2: int) -> bool {
    r1 < r2 || (r1 == r2 && c1 < c2)
}

/// The cell that follows `(row, col)` in reading order on a board of side `n`.
pub open spec fn next_cell(n: int, row: int, col: int) -> (int, int) {
    if col + 1 < n {
        (row, col + 1)
    } else {
        (row + 1, 0)
    }
}

/// The search tries placement `a` before placement `b`: lower tile index
/// first, then fewer turns.
pub open spec fn tried_before(a: Placement, b: Placement) -> bool {
    a.tile < b.tile || (a.tile == b.tile && a.turns < b.turns)
}

/// A tile may lie below `above`: an empty cell accepts anything, a tile must
/// match along the shared side.
pub open spec fn fits_under(above: Option<Tile>, t: Tile) -> bool {
    above matches Some(u) ==> compatible(u.south, t.north)
}

/// A tile may lie above `below`.
pub open spec fn fits_over(below: Option<Tile>, t: Tile) -> bool {
    below matches Some(d) ==> compatible(d.north, t.south)
}

/// A tile may lie to the right of `left`.
pub open spec fn fits_right_of(left: Option<Tile>, t: Tile) -> bool {
    left matches Some(w) ==> compatible(w.east, t.west)
}

/// A tile may lie to the left of `right`.
pub open spec fn fits_left_of(right: Option<Tile>, t: Tile) -> bool {
    right matches Some(e) ==> compatible(e.west, t.east)
}

/// The layout has one placement for each cell of a board of side `n`.
pub open spec fn shaped(l: Layout, n: int) -> bool {
    &&& l.len() == n
    &&& forall|r: int| 0 <= r < n ==> (#[trigger] l[r]).len() == n
}

/// Some cell at or after `(row, col)` is given tile `i` by the layout.
pub open spec fn places(l: Layout, n: int, row: int, col: int, i: int) -> bool {
    exists|r: int, c: int| in_span(n, row, col, r, c) && (#[trigger] l[r][c]).tile == i
}

/// No tile is given to two cells at or after `(row, col)`.
pub open spec fn distinct(l: Layout, n: int, row: int, col: int) -> bool {
    forall|r1: int, c1: int, r2: int, c2: int|
        in_span(n, row, col, r1, c1) && in_span(n, row, col, r2, c2) && (r1 != r2 || c1 != c2)
            ==> (#[trigger] l[r1][c1]).tile != (#[trigger] l[r2][c2]).tile
}

/// Layouts `a` and `b` agree on the cells from `(row, col)` up to, but not
/// including, `(r, c)`.
pub open spec fn agree_until(a: Layout, b: Layout, n: int, row: int, col: int, r: int, c: int) -> bool {
    forall|r2: int, c2: int|
        in_span(n, row, col, r2, c2) && earlier(r2, c2, r, c) ==> #[trigger] a[r2][c2] == b[r2][c2]
}

/// From `(row, col)` on, `(r, c)` is the first cell where `a` and `b`
/// differ, and there `a` holds what the search tries first.
pub open spec fn parts_at(a: Layout, b: Layout, n: int, row: int, col: int, r: int, c: int) -> bool {
    &&& in_span(n, row, col, r, c)
    &&& tried_before(a[r][c], b[r][c])
    &&& agree_until(a, b, n, row, col, r, c)
}

/// A search that starts at `(row, col)` comes upon `a` before `b`.
pub open spec fn precedes(a: Layout, b: Layout, n: int, row: int, col: int) -> bool {
    exists|r: int, c: int| parts_at(a, b, n, row, col, r, c)
}

/// The layout `l` with the placement at `(row, col)` replaced by `p`.
pub open spec fn put(l: Layout, row: int, col: int, p: Placement) -> Layout {
    l.update(row, l[row].update(col, p))
}

/// Marks for an inventory of `len` tiles of which none is used.
pub open spec fn unmarked(len: nat) -> Seq<bool> {
    Seq::new(len, |i: int| false)
}

/// Every tile of an inventory of `n * n` tiles lies on exactly one cell of
/// the board.
pub open spec fn uses_each_once(l: Layout, n: int) -> bool {
    &&& distinct(l, n, 0, 0)
    &&& forall|i: int| 0 <= i < n * n ==> places(l, n, 0, 0, i)
}

/// The marks of the inventory after the tiles of `l` from `(row, col)` on
/// have been marked as used.
pub open spec fn marked(used: Seq<bool>, l: Layout, n: int, row: int, col: int, out: Seq<bool>) -> bool {
    &&& out.len() == used.len()
    &&& forall|i: int| 0 <= i < used.len() ==> out[i] == (used[i] || places(l, n, row, col, i))
}

impl PuzzleView {
    /// The side of the board.
    pub open spec fn dim(self) -> int {
        self.board.len() as int
    }

    /// The board has as many columns in every row as it has rows.
    pub open spec fn square(self) -> bool {
        forall|r: int| 0 <= r < self.board.len() ==> (#[trigger] self.board[r]).len() == self.board.len()
    }

    /// The board is square and the inventory has one tile for each cell.
    pub open spec fn wf(self) -> bool {
        &&& self.square()
        &&& self.tiles.len() == self.board.len() * self.board.len()
    }

    /// Every cell at or after `(row, col)` is empty.
    pub open spec fn blank_from(self, row: int, col: int) -> bool {
        forall|r: int, c: int| in_span(self.dim(), row, col, r, c) ==> (#[trigger] self.board[r][c]) is None
    }

    /// The tile at `(r, c)` is there and matches every neighbour that is
    /// there: the cells above, below, left and right of it, as far as they
    /// lie on the board and hold a tile.
    pub open spec fn neighbors_agree(self, r: int, c: int) -> bool {
        match self.board[r][c] {
            None => false,
            Some(t) => {
                &&& r > 0 ==> fits_under(self.board[r - 1][c], t)
                &&& r + 1 < self.dim() ==> fits_over(self.board[r + 1][c], t)
                &&& c > 0 ==> fits_right_of(self.board[r][c - 1], t)
                &&& c + 1 < self.dim() ==> fits_left_of(self.board[r][c + 1], t)
            },
        }
    }

    /// Every tile on the board matches each of its neighbours that is there.
    pub open spec fn sound(self) -> bool {
        forall|r: int, c: int|
            0 <= r < self.dim() && 0 <= c < self.dim() && self.board[r][c] is Some
                ==> #[trigger] self.neighbors_agree(r, c)
    }

    /// Every cell holds a tile that matches each of its neighbours.
    pub open spec fn complete(self) -> bool {
        forall|r: int, c: int|
            0 <= r < self.dim() && 0 <= c < self.dim() ==> #[trigger] self.neighbors_agree(r, c)
    }

    /// The tile that a placement puts down: the inventory's tile, turned.
    pub open spec fn piece(self, p: Placement) -> Tile {
        self.tiles[p.tile].turned(p.turns as nat)
    }

    /// Placement `p` may be put down at `(row, col)` as the board stands: it
    /// names an unused tile of the inventory, turned at most three times,
    /// that matches the cells above and to the left.
    pub open spec fn suits(self, used: Seq<bool>, row: int, col: int, p: Placement) -> bool {
        &&& 0 <= p.tile < self.tiles.len()
        &&& !used[p.tile]
        &&& 0 <= p.turns < 4
        &&& row > 0 ==> fits_under(self.board[row - 1][col], self.piece(p))
        &&& col > 0 ==> fits_right_of(self.board[row][col - 1], self.piece(p))
    }

    /// The puzzle after placement `p` has been put down at `(row, col)`.
    pub open spec fn grown(self, row: int, col: int, p: Placement) -> PuzzleView {
        PuzzleView {
            board: self.board.update(row, self.board[row].update(col, Some(self.piece(p)))),
            tiles: self.tiles.update(p.tile, self.piece(p)),
        }
    }

    /// What cell `(r, c)` holds once `l` is laid from `(row, col)` on.
    pub open spec fn cell_with(self, l: Layout, row: int, col: int, r: int, c: int) -> Option<Tile> {
        if in_span(self.dim(), row, col, r, c) {
            Some(self.piece(l[r][c]))
        } else {
            self.board[r][c]
        }
    }

    /// With `l` laid from `(row, col)` on, the tile at `(r, c)` matches what
    /// lies above it and to its left.
    pub open spec fn joins(self, l: Layout, row: int, col: int, r: int, c: int) -> bool {
        &&& r > 0 ==> fits_under(self.cell_with(l, row, col, r - 1, c), self.piece(l[r][c]))
        &&& c > 0 ==> fits_right_of(self.cell_with(l, row, col, r, c - 1), self.piece(l[r][c]))
    }

    /// The placement that `l` gives to `(r, c)` is one the search may make:
    /// an unused tile of the inventory, turned at most three times, that
    /// matches what lies above it and to its left.
    pub open spec fn legal(self, used: Seq<bool>, l: Layout, row: int, col: int, r: int, c: int) -> bool {
        &&& 0 <= l[r][c].tile < self.tiles.len()
        &&& !used[l[r][c].tile]
        &&& 0 <= l[r][c].turns < 4
        &&& self.joins(l, row, col, r, c)
    }

    /// `l` completes the board from `(row, col)` on: every cell from there
    /// gets a legal placement, and no tile is placed twice.
    pub open spec fn admits(self, used: Seq<bool>, l: Layout, row: int, col: int) -> bool {
        &&& shaped(l, self.dim())
        &&& forall|r: int, c: int|
            in_span(self.dim(), row, col, r, c) ==> #[trigger] self.legal(used, l, row, col, r, c)
        &&& distinct(l, self.dim(), row, col)
    }

    /// `l` is the completion that the search finds: it completes the board
    /// from `(row, col)` on, and the search comes upon no other completion
    /// before it.
    pub open spec fn first(self, used: Seq<bool>, l: Layout, row: int, col: int) -> bool {
        &&& self.admits(used, l, row, col)
        &&& forall|m: Layout| #[trigger] self.admits(used, m, row, col) ==> !precedes(m, l, self.dim(), row, col)
    }

    /// `done` is what laying `l` from `(row, col)` on makes of the puzzle:
    /// the cells from there hold the placed tiles, the cells before are
    /// untouched, and each placed tile stays turned in the inventory.
    pub open spec fn laid(self, l: Layout, row: int, col: int, done: PuzzleView) -> bool {
        &&& done.board.len() == self.board.len()
        &&& forall|r: int| 0 <= r < self.board.len() ==> (#[trigger] done.board[r]).len() == self.board[r].len()
        &&& forall|r: int, c: int|
            0 <= r < self.board.len() && 0 <= c < self.board[r].len() ==> #[trigger] done.board[r][c]
                == self.cell_with(l, row, col, r, c)
        &&& done.tiles.len() == self.tiles.len()
        &&& forall|r: int, c: int|
            in_span(self.dim(), row, col, r, c) ==> done.tiles[(#[trigger] l[r][c]).tile] == self.piece(l[r][c])
        &&& forall|i: int|
            0 <= i < self.tiles.len() && !places(l, self.dim(), row, col, i) ==> #[trigger] done.tiles[i]
                == self.tiles[i]
    }

    /// The search from `(row, col)` on succeeds by laying `l`: `l` is the
    /// first completion, `done` is the puzzle with `l` laid, and `out` marks
    /// the tiles that were used before or are placed by `l`.
    pub open spec fn search_ends(
        self,
        used: Seq<bool>,
        row: int,
        col: int,
        l: Layout,
        done: PuzzleView,
        out: Seq<bool>,
    ) -> bool {
        &&& self.first(used, l, row, col)
        &&& self.laid(l, row, col, done)
        &&& marked(used, l, self.dim(), row, col, out)
    }

    /// Some layout fills the whole board by the rules.
    pub open spec fn solvable(self) -> bool {
        exists|l: Layout| #[trigger] self.admits(unmarked(self.tiles.len()), l, 0, 0)
    }

    /// `l` is the solution that the search finds on the empty board, and
    /// `done` is the puzzle with `l` laid.
    pub open spec fn solved_by(self, l: Layout, done: PuzzleView) -> bool {
        &&& self.first(unmarked(self.tiles.len()), l, 0, 0)
        &&& self.laid(l, 0, 0, done)
    }
}

} // verus!
