//! What holds of every puzzle: the matching rule is symmetric, a solved
//! board is complete and uses every tile once, and the search is
//! deterministic.

use vstd::prelude::*;
use vstd::arithmetic::div_mod::{lemma_fundamental_div_mod, lemma_mod_bound};
use vstd::set_lib::{lemma_int_range, lemma_subset_equality, set_int_range};
use crate::layout::{
    agree_until, earlier, fits_left_of, fits_over, fits_right_of, fits_under, in_span, marked, next_cell,
    parts_at, places, precedes, tried_before, unmarked, uses_each_once, Layout, Placement, PuzzleView,
};
use crate::tile::Tile;

verus! {

/// Whether two tiles match along the side they share does not depend on
/// which of the two is asked about the other.
pub proof fn lemma_touch_symmetric(x: Tile, y: Tile)
    ensures
        fits_under(Some(x), y) == fits_over(Some(y), x),
        fits_right_of(Some(x), y) == fits_left_of(Some(y), x),
{
}

/// The search keeps the board sound: when every tile on the board matches
/// its neighbours and the cells from `(row, col)` on are empty, the same
/// holds once a completion from `(row, col)` on is laid, also where a new
/// tile meets one that lay there before.
pub proof fn lemma_laid_sound(v: PuzzleView, used: Seq<bool>, l: Layout, row: int, col: int, done: PuzzleView)
    requires
        v.square(),
        v.sound(),
        v.blank_from(row, col),
        v.admits(used, l, row, col),
        v.laid(l, row, col, done),
    ensures
        done.sound(),
{
    let n = v.dim();
    assert forall|r: int, c: int| 0 <= r < n && 0 <= c < n && done.board[r][c] is Some implies #[trigger] done.neighbors_agree(
        r,
        c,
    ) by {
        // above and to the left: a new tile was matched when it was laid,
        // an old one has its old neighbours
        if in_span(n, row, col, r, c) {
            assert(v.legal(used, l, row, col, r, c));
        } else {
            assert(v.neighbors_agree(r, c));
        }
        // below and to the right: a new neighbour was matched against this
        // tile when it was laid
        if r + 1 < n && in_span(n, row, col, r + 1, c) {
            assert(v.legal(used, l, row, col, r + 1, c));
        }
        if c + 1 < n && in_span(n, row, col, r, c + 1) {
            assert(v.legal(used, l, row, col, r, c + 1));
        }
    }
}

/// A board filled by a completion of the empty board is complete: every
/// tile matches all four of its neighbours, since the rule is symmetric.
pub proof fn lemma_laid_complete(v: PuzzleView, used: Seq<bool>, l: Layout, done: PuzzleView)
    requires
        v.square(),
        v.admits(used, l, 0, 0),
        v.laid(l, 0, 0, done),
    ensures
        done.complete(),
{
    let n = v.dim();
    assert forall|r: int, c: int| 0 <= r < n && 0 <= c < n implies #[trigger] done.neighbors_agree(r, c) by {
        // each tile was matched against the tiles above and to its left,
        // and the tiles below and to its right were matched against it
        assert(v.legal(used, l, 0, 0, r, c));
        if r + 1 < n {
            assert(v.legal(used, l, 0, 0, r + 1, c));
        }
        if c + 1 < n {
            assert(v.legal(used, l, 0, 0, r, c + 1));
        }
    }
}

/// The `k`-th cell in reading order lies in row `k / n` and column `k % n`.
proof fn lemma_cell_of(k: int, n: int)
    requires
        0 <= n,
        0 <= k < n * n,
    ensures
        0 <= k / n < n,
        0 <= k % n < n,
        k == n * (k / n) + k % n,
{
    assert(n > 0) by (nonlinear_arith)
        requires
            0 <= n,
            0 < n * n,
    ;
    lemma_fundamental_div_mod(k, n);
    lemma_mod_bound(k, n);
    let q = k / n;
    let m = k % n;
    assert(0 <= q < n) by (nonlinear_arith)
        requires
            n > 0,
            k == n * q + m,
            0 <= m < n,
            0 <= k < n * n,
    ;
}

/// A layout that fills the whole board by the rules uses every tile of the
/// inventory exactly once: it places no tile twice, and there are as many
/// tiles as cells.
pub proof fn lemma_uses_each_once(v: PuzzleView, used: Seq<bool>, l: Layout)
    requires
        v.wf(),
        v.admits(used, l, 0, 0),
    ensures
        uses_each_once(l, v.dim()),
{
    let n = v.dim();
    let cells = n * n;
    assert(cells >= 0) by (nonlinear_arith)
        requires
            cells == n * n,
    ;
    let f = Seq::new(cells as nat, |k: int| l[k / n][k % n].tile);
    assert forall|k: int| 0 <= k < cells implies 0 <= #[trigger] f[k] < cells by {
        lemma_cell_of(k, n);
        assert(in_span(n, 0, 0, k / n, k % n));
        assert(v.legal(used, l, 0, 0, k / n, k % n));
    }
    assert forall|j: int, k: int| 0 <= j < cells && 0 <= k < cells && j != k implies f[j] != f[k] by {
        lemma_cell_of(j, n);
        lemma_cell_of(k, n);
        assert(in_span(n, 0, 0, j / n, j % n));
        assert(in_span(n, 0, 0, k / n, k % n));
        assert(j / n != k / n || j % n != k % n);
        assert(l[j / n][j % n].tile != l[k / n][k % n].tile);
    }
    assert(f.no_duplicates());
    f.unique_seq_to_set();
    lemma_int_range(0, cells);
    assert(f.to_set().subset_of(set_int_range(0, cells))) by {
        assert forall|i: int| f.to_set().contains(i) implies set_int_range(0, cells).contains(i) by {
            let k = choose|k: int| 0 <= k < f.len() && f[k] == i;
            assert(0 <= f[k] < cells);
        }
    }
    assert(f.to_set().finite()) by {
        vstd::seq_lib::seq_to_set_is_finite(f);
    }
    lemma_subset_equality(f.to_set(), set_int_range(0, cells));
    assert forall|i: int| 0 <= i < cells implies places(l, n, 0, 0, i) by {
        assert(set_int_range(0, cells).contains(i));
        assert(f.to_set().contains(i));
        let k = choose|k: int| 0 <= k < f.len() && f[k] == i;
        lemma_cell_of(k, n);
        assert(in_span(n, 0, 0, k / n, k % n) && l[k / n][k % n].tile == i);
    }
}

/// Scans the board in reading order from `(r, c)` for the first cell from
/// `(row, col)` on at which two layouts differ.
proof fn lemma_first_difference(a: Layout, b: Layout, n: int, row: int, col: int, r: int, c: int) -> (at: Option<
    (int, int),
>)
    requires
        0 <= r <= n,
        0 <= c < n || r == n,
        agree_until(a, b, n, row, col, r, c),
    ensures
        match at {
            Some((fr, fc)) => in_span(n, row, col, fr, fc) && a[fr][fc] != b[fr][fc] && agree_until(
                a,
                b,
                n,
                row,
                col,
                fr,
                fc,
            ),
            None => forall|r2: int, c2: int| in_span(n, row, col, r2, c2) ==> #[trigger] a[r2][c2] == b[r2][c2],
        },
    decreases n - r, n - c,
{
    if r == n {
        assert forall|r2: int, c2: int| in_span(n, row, col, r2, c2) implies #[trigger] a[r2][c2] == b[r2][c2] by {
            assert(earlier(r2, c2, r, c));
        }
        None
    } else if in_span(n, row, col, r, c) && a[r][c] != b[r][c] {
        Some((r, c))
    } else {
        let (nr, nc) = next_cell(n, r, c);
        assert forall|r2: int, c2: int| in_span(n, row, col, r2, c2) && earlier(r2, c2, nr, nc) implies #[trigger] a[r2][c2]
            == b[r2][c2] by {
            if !(r2 == r && c2 == c) {
                assert(earlier(r2, c2, r, c));
            }
        }
        lemma_first_difference(a, b, n, row, col, nr, nc)
    }
}

/// The search finds one completion: two layouts that are both the first
/// completion from `(row, col)` on agree on every cell from there.
pub proof fn lemma_first_unique(v: PuzzleView, used: Seq<bool>, a: Layout, b: Layout, row: int, col: int)
    requires
        v.first(used, a, row, col),
        v.first(used, b, row, col),
    ensures
        forall|r: int, c: int| in_span(v.dim(), row, col, r, c) ==> #[trigger] a[r][c] == b[r][c],
{
    let n = v.dim();
    match lemma_first_difference(a, b, n, row, col, 0, 0) {
        None => {},
        Some((r, c)) => {
            if tried_before(a[r][c], b[r][c]) {
                assert(parts_at(a, b, n, row, col, r, c));
                assert(precedes(a, b, n, row, col));
            } else {
                assert(tried_before(b[r][c], a[r][c]));
                assert forall|r2: int, c2: int| in_span(n, row, col, r2, c2) && earlier(r2, c2, r, c) implies #[trigger] b[r2][c2]
                    == a[r2][c2] by {
                    assert(a[r2][c2] == b[r2][c2]);
                }
                assert(parts_at(b, a, n, row, col, r, c));
                assert(precedes(b, a, n, row, col));
            }
        },
    }
}

/// Laying layouts that agree from `(row, col)` on gives the same puzzle and
/// the same marks.
pub proof fn lemma_laid_same(
    v: PuzzleView,
    used: Seq<bool>,
    a: Layout,
    b: Layout,
    row: int,
    col: int,
    done_a: PuzzleView,
    out_a: Seq<bool>,
    done_b: PuzzleView,
    out_b: Seq<bool>,
)
    requires
        forall|r: int, c: int| in_span(v.dim(), row, col, r, c) ==> #[trigger] a[r][c] == b[r][c],
        v.laid(a, row, col, done_a),
        v.laid(b, row, col, done_b),
        marked(used, a, v.dim(), row, col, out_a),
        marked(used, b, v.dim(), row, col, out_b),
    ensures
        done_a == done_b,
        out_a == out_b,
{
    let n = v.dim();
    assert forall|i: int| places(a, n, row, col, i) == places(b, n, row, col, i) by {
        if places(a, n, row, col, i) {
            let (r, c) = choose|r: int, c: int| in_span(n, row, col, r, c) && (#[trigger] a[r][c]).tile == i;
            assert(in_span(n, row, col, r, c) && b[r][c].tile == i);
        }
        if places(b, n, row, col, i) {
            let (r, c) = choose|r: int, c: int| in_span(n, row, col, r, c) && (#[trigger] b[r][c]).tile == i;
            assert(a[r][c] == b[r][c]);
            assert(in_span(n, row, col, r, c) && a[r][c].tile == i);
        }
    }
    assert(out_a =~= out_b);
    assert(done_a.tiles =~= done_b.tiles) by {
        assert forall|i: int| 0 <= i < v.tiles.len() implies done_a.tiles[i] == done_b.tiles[i] by {
            if places(a, n, row, col, i) {
                let (r, c) = choose|r: int, c: int| in_span(n, row, col, r, c) && (#[trigger] a[r][c]).tile == i;
                assert(a[r][c] == b[r][c]);
                assert(done_a.tiles[a[r][c].tile] == v.piece(a[r][c]));
                assert(done_b.tiles[b[r][c].tile] == v.piece(b[r][c]));
            }
        }
    }
    assert(done_a.board =~= done_b.board) by {
        assert forall|r: int| 0 <= r < v.board.len() implies #[trigger] done_a.board[r] =~= done_b.board[r] by {
            assert forall|c: int| 0 <= c < v.board[r].len() implies done_a.board[r][c] == done_b.board[r][c] by {
                assert(done_a.board[r][c] == v.cell_with(a, row, col, r, c));
                assert(done_b.board[r][c] == v.cell_with(b, row, col, r, c));
                if in_span(n, row, col, r, c) {
                    assert(a[r][c] == b[r][c]);
                }
            }
        }
    }
}

/// The search is a function of the puzzle it starts from: whatever two
/// searches from `(row, col)` on end in, they lay the same tiles on the same
/// cells, leave the same puzzle and the same marks.
pub proof fn lemma_search_deterministic(
    v: PuzzleView,
    used: Seq<bool>,
    row: int,
    col: int,
    a: Layout,
    done_a: PuzzleView,
    out_a: Seq<bool>,
    b: Layout,
    done_b: PuzzleView,
    out_b: Seq<bool>,
)
    requires
        v.search_ends(used, row, col, a, done_a, out_a),
        v.search_ends(used, row, col, b, done_b, out_b),
    ensures
        forall|r: int, c: int| in_span(v.dim(), row, col, r, c) ==> #[trigger] a[r][c] == b[r][c],
        done_a == done_b,
        out_a == out_b,
{
    lemma_first_unique(v, used, a, b, row, col);
    lemma_laid_same(v, used, a, b, row, col, done_a, out_a, done_b, out_b);
}

/// Solving is deterministic: the same board, the same tiles in the same
/// order, and the same solution comes out, tile for tile and turn for turn.
pub proof fn lemma_solve_deterministic(v: PuzzleView, a: Layout, done_a: PuzzleView, b: Layout, done_b: PuzzleView)
    requires
        v.solved_by(a, done_a),
        v.solved_by(b, done_b),
    ensures
        a == b,
        done_a == done_b,
{
    let n = v.dim();
    let used = unmarked(v.tiles.len());
    lemma_first_unique(v, used, a, b, 0, 0);
    let out = Seq::new(used.len(), |i: int| used[i] || places(a, n, 0, 0, i));
    assert forall|i: int| places(a, n, 0, 0, i) == places(b, n, 0, 0, i) by {
        if places(a, n, 0, 0, i) {
            let (r, c) = choose|r: int, c: int| in_span(n, 0, 0, r, c) && (#[trigger] a[r][c]).tile == i;
            assert(in_span(n, 0, 0, r, c) && b[r][c].tile == i);
        }
        if places(b, n, 0, 0, i) {
            let (r, c) = choose|r: int, c: int| in_span(n, 0, 0, r, c) && (#[trigger] b[r][c]).tile == i;
            assert(a[r][c] == b[r][c]);
            assert(in_span(n, 0, 0, r, c) && a[r][c].tile == i);
        }
    }
    lemma_laid_same(v, used, a, b, 0, 0, done_a, out, done_b, out);
    assert(a =~= b) by {
        assert forall|r: int| 0 <= r < n implies #[trigger] a[r] =~= b[r] by {
            assert forall|c: int| 0 <= c < n implies a[r][c] == b[r][c] by {
                assert(in_span(n, 0, 0, r, c));
            }
        }
    }
}

/// A board of a single cell is always solved, by the first tile as it
/// lies: with no neighbour on the board, every placement suits the cell.
pub proof fn lemma_single_cell(v: PuzzleView)
    requires
        v.wf(),
        v.dim() == 1,
    ensures
        v.solvable(),
        v.solved_by(
            seq![seq![Placement { tile: 0, turns: 0 }]],
            PuzzleView { board: seq![seq![Some(v.tiles[0])]], tiles: v.tiles },
        ),
        forall|p: Placement| 0 <= p.tile < 1 && 0 <= p.turns < 4 ==> #[trigger] v.suits(unmarked(1), 0, 0, p),
{
    let l = seq![seq![Placement { tile: 0, turns: 0 }]];
    let done = PuzzleView { board: seq![seq![Some(v.tiles[0])]], tiles: v.tiles };
    let used = unmarked(v.tiles.len());
    assert(v.tiles.len() == 1) by (nonlinear_arith)
        requires
            v.tiles.len() == v.board.len() * v.board.len(),
            v.board.len() == 1,
    ;
    assert(v.board[0].len() == 1);
    assert(v.piece(l[0][0]) == v.tiles[0]);
    assert forall|r: int, c: int| in_span(1, 0, 0, r, c) implies #[trigger] v.legal(used, l, 0, 0, r, c) by {
        assert(r == 0 && c == 0);
    }
    assert(v.admits(used, l, 0, 0));
    assert forall|m: Layout| #[trigger] v.admits(used, m, 0, 0) implies !precedes(m, l, 1, 0, 0) by {
        if precedes(m, l, 1, 0, 0) {
            let (r, c) = choose|r: int, c: int| parts_at(m, l, 1, 0, 0, r, c);
            assert(r == 0 && c == 0);
            assert(v.legal(used, m, 0, 0, 0, 0));
        }
    }
    assert(v.laid(l, 0, 0, done)) by {
        assert forall|i: int| 0 <= i < v.tiles.len() && !places(l, 1, 0, 0, i) implies #[trigger] done.tiles[i]
            == v.tiles[i] by {}
        assert forall|r: int, c: int| in_span(1, 0, 0, r, c) implies done.tiles[(#[trigger] l[r][c]).tile] == v.piece(
            l[r][c],
        ) by {
            assert(r == 0 && c == 0);
        }
    }
}

} // verus!
