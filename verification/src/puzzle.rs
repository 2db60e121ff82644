//! The puzzle itself: a board, an inventory of tiles, and the backtracking
//! search that lays the tiles out.

use vstd::prelude::*;
use crate::laws::{lemma_laid_complete, lemma_laid_sound, lemma_uses_each_once};
use crate::layout::{in_span, next_cell, put, tried_before, unmarked, uses_each_once, Layout, Placement, PuzzleView};
use crate::search::{
    lemma_admits_rest, lemma_admits_suits, lemma_first_grow, lemma_laid_grow, lemma_search_done,
};
use crate::tile::{lemma_four_rotations_restore, Tile};

verus! {

/// Why a board and an inventory do not make a puzzle.
#[derive(Debug, Clone, Copy, PartialEq, Eq)]
pub enum ConfigError {
    /// Some row is not as long as the board has rows.
    BoardNotSquare,
    /// The inventory does not hold exactly one tile for each cell.
    InventorySize,
}

/// A square board and the tiles to lay out on it.
pub struct Puzzle {
    board: Vec<Vec<Option<Tile>>>,
    tiles: Vec<Tile>,
}

/// The cells of a board, row by row.
pub open spec fn grid_of(rows: Seq<Vec<Option<Tile>>>) -> Seq<Seq<Option<Tile>>> {
    Seq::new(rows.len(), |r: int| rows[r]@)
}

impl View for Puzzle {
    type V = PuzzleView;

    closed spec fn view(&self) -> PuzzleView {
        PuzzleView { board: grid_of(self.board@), tiles: self.tiles@ }
    }
}

impl Puzzle {
    /// Makes a puzzle of a square board and an inventory with one tile for
    /// each of its cells, and says what is wrong with anything else.
    pub fn new(board: Vec<Vec<Option<Tile>>>, tiles: Vec<Tile>) -> (made: Result<Puzzle, ConfigError>)
        ensures
            ({
                let given = PuzzleView { board: grid_of(board@), tiles: tiles@ };
                match made {
                    Ok(puzzle) => puzzle@ == given && given.wf(),
                    Err(ConfigError::BoardNotSquare) => !given.square(),
                    Err(ConfigError::InventorySize) => given.square() && tiles.len() != board.len() * board.len(),
                }
            }),
    {
        let ghost v = PuzzleView { board: grid_of(board@), tiles: tiles@ };
        let n = board.len();
        let mut row: usize = 0;
        while row < n
            invariant
                n == board.len(),
                v == (PuzzleView { board: grid_of(board@), tiles: tiles@ }),
                row <= n,
                forall|r: int| 0 <= r < row ==> (#[trigger] v.board[r]).len() == n,
            decreases n - row,
        {
            if board[row].len() != n {
                assert(v.board[row as int].len() != n);
                return Err(ConfigError::BoardNotSquare);
            }
            row += 1;
        }
        match n.checked_mul(n) {
            Some(cells) => {
                if tiles.len() != cells {
                    return Err(ConfigError::InventorySize);
                }
            },
            None => {
                return Err(ConfigError::InventorySize);
            },
        }
        Ok(Puzzle { board, tiles })
    }

    /// Whether every cell of the board is empty.
    pub fn is_blank(&self) -> (blank: bool)
        requires
            self@.square(),
        ensures
            blank == self@.blank_from(0, 0),
    {
        let n = self.board.len();
        let mut row: usize = 0;
        while row < n
            invariant
                self@.square(),
                self@.dim() == n,
                row <= n,
                forall|r: int, c: int| 0 <= r < row && 0 <= c < n ==> (#[trigger] self@.board[r][c]) is None,
            decreases n - row,
        {
            let mut col: usize = 0;
            while col < n
                invariant
                    self@.square(),
                    self@.dim() == n,
                    row < n,
                    col <= n,
                    forall|r: int, c: int| 0 <= r < row && 0 <= c < n ==> (#[trigger] self@.board[r][c]) is None,
                    forall|c: int| 0 <= c < col ==> (#[trigger] self@.board[row as int][c]) is None,
                decreases n - col,
            {
                if self.board[row][col].is_some() {
                    return false;
                }
                col += 1;
            }
            row += 1;
        }
        true
    }

    /// The cells of the board, row by row.
    pub fn board(&self) -> (rows: &Vec<Vec<Option<Tile>>>)
        ensures
            grid_of(rows@) == self@.board,
    {
        &self.board
    }

    /// The inventory, each tile in its current orientation.
    pub fn tiles(&self) -> (tiles: &Vec<Tile>)
        ensures
            tiles@ == self@.tiles,
    {
        &self.tiles
    }

    /// Whether the tile at `(row, col)` is there and matches each of its
    /// four neighbours, as far as they lie on the board and hold a tile.
    pub fn check_neighbors(&self, row: usize, col: usize) -> (fine: bool)
        requires
            self@.square(),
            row < self@.dim(),
            col < self@.dim(),
        ensures
            fine == self@.neighbors_agree(row as int, col as int),
    {
        let n = self.board.len();
        assert(self@.board[row as int].len() == n);
        let tile = match self.board[row][col] {
            None => {
                return false;
            },
            Some(tile) => tile,
        };
        if row > 0 {
            assert(self@.board[row - 1].len() == n);
            if let Some(top_neighbor) = self.board[row - 1][col] {
                if top_neighbor.south.1 == tile.north.1 || top_neighbor.south.0 != tile.north.0 {
                    return false;
                }
            }
        }
        if row < n - 1 {
            assert(self@.board[row + 1].len() == n);
            if let Some(bottom_neighbor) = self.board[row + 1][col] {
                if bottom_neighbor.north.1 == tile.south.1 || bottom_neighbor.north.0 != tile.south.0 {
                    return false;
                }
            }
        }
        if col > 0 {
            if let Some(left_neighbor) = self.board[row][col - 1] {
                if left_neighbor.east.1 == tile.west.1 || left_neighbor.east.0 != tile.west.0 {
                    return false;
                }
            }
        }
        if col < n - 1 {
            if let Some(right_neighbor) = self.board[row][col + 1] {
                if right_neighbor.west.1 == tile.east.1 || right_neighbor.west.0 != tile.east.0 {
                    return false;
                }
            }
        }
        true
    }

    /// Lays the tiles out on the empty board, if that can be done at all.
    ///
    /// The cells are filled in reading order; for each cell the unused tiles
    /// are tried by rising index, each in its four orientations. When some
    /// layout fills the board by the rules, the result is `true` and the
    /// puzzle holds the first such layout in that order: every cell holds a
    /// tile that matches all its neighbours, every tile of the inventory
    /// lies on exactly one cell, and the tiles of the inventory stay turned
    /// as they were laid. Otherwise the result is `false` and the puzzle is
    /// as it was.
    pub fn solve(&mut self) -> (solved: bool)
        requires
            old(self)@.wf(),
            old(self)@.blank_from(0, 0),
        ensures
            solved == old(self)@.solvable(),
            solved ==> exists|l: Layout| #[trigger]
                old(self)@.solved_by(l, final(self)@) && uses_each_once(l, old(self)@.dim()),
            solved ==> final(self)@.complete(),
            !solved ==> final(self)@ == old(self)@,
            final(self)@.wf(),
            final(self)@.dim() == old(self)@.dim(),
    {
        let mut used_tiles: Vec<bool> = Vec::new();
        while used_tiles.len() < self.tiles.len()
            invariant
                self@ == old(self)@,
                used_tiles.len() <= self@.tiles.len(),
                forall|i: int| 0 <= i < used_tiles.len() ==> !used_tiles[i],
            decreases self@.tiles.len() - used_tiles.len(),
        {
            used_tiles.push(false);
        }
        assert(used_tiles@ =~= unmarked(self@.tiles.len()));
        let ghost v0 = self@;
        let solved = self._solve(0, 0, &mut used_tiles);
        proof {
            if solved {
                let l = choose|l: Layout| #[trigger]
                    v0.search_ends(unmarked(v0.tiles.len()), 0, 0, l, self@, used_tiles@);
                assert(v0.solved_by(l, self@));
                lemma_laid_complete(v0, unmarked(v0.tiles.len()), l, self@);
                lemma_uses_each_once(v0, unmarked(v0.tiles.len()), l);
            }
        }
        solved
    }

    /// Searches for a way to fill the board from `(row, col)` on, in reading
    /// order, with tiles that `used_tiles` does not mark. Each unmarked tile
    /// is tried in turn, lowest index first, in each of its four
    /// orientations, starting from the one it has. On success the board
    /// holds the first completion in that order, its tiles are marked and
    /// stay turned in the inventory; on failure everything is as before.
    /// Past the last row nothing is left to fill, and the search succeeds at
    /// once.
    pub fn _solve(&mut self, row: usize, col: usize, used_tiles: &mut Vec<bool>) -> (found: bool)
        requires
            old(self)@.wf(),
            old(used_tiles)@.len() == old(self)@.tiles.len(),
            row <= old(self)@.dim(),
            row < old(self)@.dim() ==> col < old(self)@.dim(),
            old(self)@.blank_from(row as int, col as int),
        ensures
            found <==> exists|l: Layout| #[trigger] old(self)@.admits(old(used_tiles)@, l, row as int, col as int),
            found ==> exists|l: Layout| #[trigger]
                old(self)@.search_ends(old(used_tiles)@, row as int, col as int, l, final(self)@, final(used_tiles)@),
            !found ==> final(self)@ == old(self)@ && final(used_tiles)@ == old(used_tiles)@,
            row == old(self)@.dim() ==> found && final(self)@ == old(self)@ && final(used_tiles)@ == old(
                used_tiles,
            )@,
            old(self)@.sound() ==> final(self)@.sound(),
            final(self)@.wf(),
            final(self)@.dim() == old(self)@.dim(),
            final(used_tiles)@.len() == old(used_tiles)@.len(),
        decreases old(self)@.dim() - row, old(self)@.dim() - col,
    {
        let ghost v0 = self@;
        let ghost u0 = used_tiles@;
        let n = self.board.len();
        if row == n {
            proof {
                lemma_search_done(v0, u0, col as int);
            }
            return true;
        }
        assert forall|m: Layout| #[trigger] v0.admits(u0, m, row as int, col as int) implies m[row as int][col as int].tile
            >= 0 by {
            lemma_admits_suits(v0, u0, m, row as int, col as int);
        }
        let mut tile_index: usize = 0;
        while tile_index < self.tiles.len()
            invariant
                v0 == old(self)@,
                u0 == old(used_tiles)@,
                v0.wf(),
                v0.dim() == n,
                u0.len() == v0.tiles.len(),
                row < n,
                col < n,
                v0.blank_from(row as int, col as int),
                self@ == v0,
                used_tiles@ == u0,
                tile_index <= v0.tiles.len(),
                forall|m: Layout| #[trigger]
                    v0.admits(u0, m, row as int, col as int) ==> m[row as int][col as int].tile >= tile_index,
            decreases v0.tiles.len() - tile_index,
        {
            if !used_tiles[tile_index] {
                used_tiles[tile_index] = true;
                assert forall|m: Layout| #[trigger] v0.admits(u0, m, row as int, col as int) implies !tried_before(
                    m[row as int][col as int],
                    Placement { tile: tile_index as int, turns: 0 },
                ) by {
                    lemma_admits_suits(v0, u0, m, row as int, col as int);
                }
                let mut turn: usize = 0;
                while turn < 4
                    invariant
                        v0 == old(self)@,
                        u0 == old(used_tiles)@,
                        v0.wf(),
                        v0.dim() == n,
                        u0.len() == v0.tiles.len(),
                        row < n,
                        col < n,
                        v0.blank_from(row as int, col as int),
                        tile_index < v0.tiles.len(),
                        !u0[tile_index as int],
                        turn <= 4,
                        self@.square(),
                        self@.dim() == n,
                        forall|r: int, c: int|
                            0 <= r < n && 0 <= c < n && !(r == row && c == col) ==> #[trigger] self@.board[r][c]
                                == v0.board[r][c],
                        self@.tiles == v0.tiles.update(
                            tile_index as int,
                            v0.tiles[tile_index as int].turned(turn as nat),
                        ),
                        used_tiles@ == u0.update(tile_index as int, true),
                        forall|m: Layout| #[trigger]
                            v0.admits(u0, m, row as int, col as int) ==> !tried_before(
                                m[row as int][col as int],
                                Placement { tile: tile_index as int, turns: turn as int },
                            ),
                    decreases 4 - turn,
                {
                    let ghost p = Placement { tile: tile_index as int, turns: turn as int };
                    let ghost w = v0.grown(row as int, col as int, p);
                    let ghost before = self@;
                    assert(self@.board[row as int].len() == n);
                    self.board[row][col] = Some(self.tiles[tile_index]);
                    assert(self@ == w) by {
                        assert forall|r: int| 0 <= r < n implies #[trigger] self@.board[r] =~= w.board[r] by {
                            assert(before.board[r].len() == n);
                        }
                        assert(self@.board =~= w.board);
                    }
                    let fits = self.check_neighbors(row, col);
                    // the cells below and to the right are still empty
                    assert(fits == v0.suits(u0, row as int, col as int, p));
                    if fits {
                        let next_row = if col + 1 < n { row } else { row + 1 };
                        let next_col = if col + 1 < n { col + 1 } else { 0 };
                        assert(w.blank_from(next_row as int, next_col as int));
                        if self._solve(next_row, next_col, used_tiles) {
                            proof {
                                let l = choose|l: Layout| #[trigger]
                                    w.search_ends(
                                        u0.update(tile_index as int, true),
                                        next_row as int,
                                        next_col as int,
                                        l,
                                        self@,
                                        used_tiles@,
                                    );
                                lemma_first_grow(v0, u0, l, row as int, col as int, p);
                                lemma_laid_grow(v0, u0, l, row as int, col as int, p, self@, used_tiles@);
                                let l2 = put(l, row as int, col as int, p);
                                assert(v0.search_ends(u0, row as int, col as int, l2, self@, used_tiles@));
                                if v0.sound() {
                                    lemma_laid_sound(v0, u0, l2, row as int, col as int, self@);
                                }
                            }
                            return true;
                        }
                    }
                    assert forall|m: Layout| #[trigger] v0.admits(u0, m, row as int, col as int) implies !tried_before(
                        m[row as int][col as int],
                        Placement { tile: tile_index as int, turns: turn + 1 },
                    ) by {
                        lemma_admits_suits(v0, u0, m, row as int, col as int);
                        if m[row as int][col as int] == p {
                            lemma_admits_rest(v0, u0, m, row as int, col as int);
                        }
                    }
                    self.tiles[tile_index].rotate();
                    turn += 1;
                }
                proof {
                    lemma_four_rotations_restore(v0.tiles[tile_index as int]);
                }
                used_tiles[tile_index] = false;
            }
            let ghost before = self@;
            assert(self@.board[row as int].len() == n);
            self.board[row][col] = None;
            assert(self@ == v0) by {
                assert(self@.tiles == v0.tiles);
                assert forall|r: int| 0 <= r < n implies #[trigger] self@.board[r] =~= v0.board[r] by {
                    assert(before.board[r].len() == n);
                }
                assert(self@.board =~= v0.board);
            }
            assert forall|m: Layout| #[trigger] v0.admits(u0, m, row as int, col as int) implies m[row as int][col as int].tile
                >= tile_index + 1 by {
                lemma_admits_suits(v0, u0, m, row as int, col as int);
            }
            tile_index += 1;
        }
        assert forall|m: Layout| !#[trigger] v0.admits(u0, m, row as int, col as int) by {
            if v0.admits(u0, m, row as int, col as int) {
                lemma_admits_suits(v0, u0, m, row as int, col as int);
            }
        }
        false
    }
}

} // verus!
