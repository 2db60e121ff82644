//! How the search proceeds from one cell to the next: what a completion
//! from a cell on has to do with the completions from the next cell on.

use vstd::prelude::*;
use crate::layout::{
    distinct, earlier, in_span, marked, next_cell, parts_at, places, precedes, put, shaped, tried_before, Layout,
    Placement, PuzzleView,
};

verus! {

/// A completion from `(row, col)` on is, once its first placement has been
/// put down, a completion from the next cell on.
pub proof fn lemma_admits_rest(v: PuzzleView, used: Seq<bool>, l: Layout, row: int, col: int)
    requires
        v.wf(),
        used.len() == v.tiles.len(),
        0 <= row < v.dim(),
        0 <= col < v.dim(),
        v.admits(used, l, row, col),
    ensures
        v.legal(used, l, row, col, row, col),
        v.grown(row, col, l[row][col]).admits(
            used.update(l[row][col].tile, true),
            l,
            next_cell(v.dim(), row, col).0,
            next_cell(v.dim(), row, col).1,
        ),
{
    let n = v.dim();
    let p = l[row][col];
    let w = v.grown(row, col, p);
    let marks = used.update(p.tile, true);
    let (nr, nc) = next_cell(n, row, col);
    assert(v.legal(used, l, row, col, row, col));
    assert forall|r: int, c: int| in_span(n, nr, nc, r, c) implies #[trigger] w.legal(marks, l, nr, nc, r, c) by {
        assert(v.legal(used, l, row, col, r, c));
        if r > 0 && in_span(n, nr, nc, r - 1, c) {
            assert(v.legal(used, l, row, col, r - 1, c));
        }
        if c > 0 && in_span(n, nr, nc, r, c - 1) {
            assert(v.legal(used, l, row, col, r, c - 1));
        }
    }
    assert(distinct(l, n, nr, nc));
}

/// Whether a layout completes the board from `(row, col)` on depends only
/// on its placements from that cell on.
pub proof fn lemma_admits_same(v: PuzzleView, used: Seq<bool>, a: Layout, b: Layout, row: int, col: int)
    requires
        v.admits(used, a, row, col),
        shaped(b, v.dim()),
        forall|r: int, c: int| in_span(v.dim(), row, col, r, c) ==> #[trigger] a[r][c] == b[r][c],
    ensures
        v.admits(used, b, row, col),
{
    let n = v.dim();
    assert forall|r: int, c: int| in_span(n, row, col, r, c) implies #[trigger] v.legal(used, b, row, col, r, c) by {
        assert(v.legal(used, a, row, col, r, c));
    }
    assert forall|r1: int, c1: int, r2: int, c2: int|
        in_span(n, row, col, r1, c1) && in_span(n, row, col, r2, c2) && (r1 != r2 || c1 != c2) implies (
    #[trigger] b[r1][c1]).tile != (#[trigger] b[r2][c2]).tile by {
        assert(a[r1][c1] == b[r1][c1]);
        assert(a[r2][c2] == b[r2][c2]);
    }
}

/// A placement that suits `(row, col)`, followed by a completion from the
/// next cell on of the puzzle so grown, completes the board from
/// `(row, col)` on.
pub proof fn lemma_admits_grow(v: PuzzleView, used: Seq<bool>, l: Layout, row: int, col: int)
    requires
        v.wf(),
        used.len() == v.tiles.len(),
        0 <= row < v.dim(),
        0 <= col < v.dim(),
        v.suits(used, row, col, l[row][col]),
        v.grown(row, col, l[row][col]).admits(
            used.update(l[row][col].tile, true),
            l,
            next_cell(v.dim(), row, col).0,
            next_cell(v.dim(), row, col).1,
        ),
    ensures
        v.admits(used, l, row, col),
{
    let n = v.dim();
    let p = l[row][col];
    let w = v.grown(row, col, p);
    let marks = used.update(p.tile, true);
    let (nr, nc) = next_cell(n, row, col);
    assert forall|r: int, c: int| in_span(n, row, col, r, c) implies #[trigger] v.legal(used, l, row, col, r, c) by {
        if !(r == row && c == col) {
            assert(w.legal(marks, l, nr, nc, r, c));
            if r > 0 && in_span(n, nr, nc, r - 1, c) {
                assert(w.legal(marks, l, nr, nc, r - 1, c));
            }
            if c > 0 && in_span(n, nr, nc, r, c - 1) {
                assert(w.legal(marks, l, nr, nc, r, c - 1));
            }
        }
    }
    assert forall|r1: int, c1: int, r2: int, c2: int|
        in_span(n, row, col, r1, c1) && in_span(n, row, col, r2, c2) && (r1 != r2 || c1 != c2) implies (
    #[trigger] l[r1][c1]).tile != (#[trigger] l[r2][c2]).tile by {
        if r1 == row && c1 == col {
            assert(w.legal(marks, l, nr, nc, r2, c2));
        } else if r2 == row && c2 == col {
            assert(w.legal(marks, l, nr, nc, r1, c1));
        }
    }
}

/// With `p` put at `(row, col)`, a layout places the tile of `p` and
/// whatever it places from the next cell on.
pub proof fn lemma_places_put(l: Layout, n: int, row: int, col: int, p: Placement, i: int)
    requires
        shaped(l, n),
        0 <= row < n,
        0 <= col < n,
    ensures
        places(put(l, row, col, p), n, row, col, i) <==> i == p.tile || places(
            l,
            n,
            next_cell(n, row, col).0,
            next_cell(n, row, col).1,
            i,
        ),
{
    let l2 = put(l, row, col, p);
    let (nr, nc) = next_cell(n, row, col);
    if places(l2, n, row, col, i) {
        let (r, c) = choose|r: int, c: int| in_span(n, row, col, r, c) && (#[trigger] l2[r][c]).tile == i;
        if !(r == row && c == col) {
            assert(in_span(n, nr, nc, r, c) && l[r][c].tile == i);
        }
    }
    if i == p.tile {
        assert(in_span(n, row, col, row, col) && l2[row][col].tile == i);
    }
    if places(l, n, nr, nc, i) {
        let (r, c) = choose|r: int, c: int| in_span(n, nr, nc, r, c) && (#[trigger] l[r][c]).tile == i;
        assert(in_span(n, row, col, r, c) && l2[r][c].tile == i);
    }
}

/// The first completion from the next cell on, behind the first placement at
/// `(row, col)` that leads to any completion, is the first completion from
/// `(row, col)` on.
pub proof fn lemma_first_grow(v: PuzzleView, used: Seq<bool>, l: Layout, row: int, col: int, p: Placement)
    requires
        v.wf(),
        used.len() == v.tiles.len(),
        0 <= row < v.dim(),
        0 <= col < v.dim(),
        v.suits(used, row, col, p),
        v.grown(row, col, p).first(
            used.update(p.tile, true),
            l,
            next_cell(v.dim(), row, col).0,
            next_cell(v.dim(), row, col).1,
        ),
        forall|m: Layout| #[trigger] v.admits(used, m, row, col) ==> !tried_before(m[row][col], p),
    ensures
        v.first(used, put(l, row, col, p), row, col),
{
    let n = v.dim();
    let w = v.grown(row, col, p);
    let marks = used.update(p.tile, true);
    let (nr, nc) = next_cell(n, row, col);
    let l2 = put(l, row, col, p);
    lemma_admits_same(w, marks, l, l2, nr, nc);
    lemma_admits_grow(v, used, l2, row, col);
    assert forall|m: Layout| #[trigger] v.admits(used, m, row, col) implies !precedes(m, l2, n, row, col) by {
        if precedes(m, l2, n, row, col) {
            let (r, c) = choose|r: int, c: int| parts_at(m, l2, n, row, col, r, c);
            if r == row && c == col {
                assert(tried_before(m[row][col], p));
            } else {
                // `m` starts with `p` too, and parts from `l` behind it
                assert(earlier(row, col, r, c));
                lemma_admits_rest(v, used, m, row, col);
                assert(parts_at(m, l, n, nr, nc, r, c));
            }
        }
    }
}

/// Putting `p` down at `(row, col)` and laying `l` from the next cell on is
/// laying `l`, with `p` put at `(row, col)`, from `(row, col)` on.
pub proof fn lemma_laid_grow(
    v: PuzzleView,
    used: Seq<bool>,
    l: Layout,
    row: int,
    col: int,
    p: Placement,
    done: PuzzleView,
    out: Seq<bool>,
)
    requires
        v.wf(),
        used.len() == v.tiles.len(),
        0 <= row < v.dim(),
        0 <= col < v.dim(),
        v.suits(used, row, col, p),
        v.grown(row, col, p).admits(
            used.update(p.tile, true),
            l,
            next_cell(v.dim(), row, col).0,
            next_cell(v.dim(), row, col).1,
        ),
        v.grown(row, col, p).laid(l, next_cell(v.dim(), row, col).0, next_cell(v.dim(), row, col).1, done),
        marked(
            used.update(p.tile, true),
            l,
            v.dim(),
            next_cell(v.dim(), row, col).0,
            next_cell(v.dim(), row, col).1,
            out,
        ),
    ensures
        v.laid(put(l, row, col, p), row, col, done),
        marked(used, put(l, row, col, p), v.dim(), row, col, out),
{
    let n = v.dim();
    let w = v.grown(row, col, p);
    let marks = used.update(p.tile, true);
    let (nr, nc) = next_cell(n, row, col);
    let l2 = put(l, row, col, p);
    assert forall|r: int, c: int| in_span(n, nr, nc, r, c) implies l2[r][c] == l[r][c] && w.piece(l[r][c]) == v.piece(
        l[r][c],
    ) by {
        assert(w.legal(marks, l, nr, nc, r, c));
    }
    assert forall|i: int| 0 <= i < used.len() implies out[i] == (used[i] || places(l2, n, row, col, i)) by {
        lemma_places_put(l, n, row, col, p, i);
    }
    assert forall|r: int, c: int| 0 <= r < v.board.len() && 0 <= c < v.board[r].len() implies #[trigger] done.board[r][c]
        == v.cell_with(l2, row, col, r, c) by {
        assert(done.board[r][c] == w.cell_with(l, nr, nc, r, c));
    }
    assert(!places(l, n, nr, nc, p.tile)) by {
        if places(l, n, nr, nc, p.tile) {
            let (r, c) = choose|r: int, c: int| in_span(n, nr, nc, r, c) && (#[trigger] l[r][c]).tile == p.tile;
            assert(w.legal(marks, l, nr, nc, r, c));
        }
    }
    assert forall|r: int, c: int| in_span(n, row, col, r, c) implies done.tiles[(#[trigger] l2[r][c]).tile] == v.piece(
        l2[r][c],
    ) by {
        if !(r == row && c == col) {
            assert(in_span(n, nr, nc, r, c));
        }
    }
    assert forall|i: int| 0 <= i < v.tiles.len() && !places(l2, n, row, col, i) implies #[trigger] done.tiles[i]
        == v.tiles[i] by {
        lemma_places_put(l, n, row, col, p, i);
    }
}

/// Past the last row nothing is left to place: any layout completes the
/// board, and laying it changes nothing.
pub proof fn lemma_search_done(v: PuzzleView, used: Seq<bool>, col: int) -> (l: Layout)
    requires
        v.square(),
    ensures
        v.search_ends(used, v.dim(), col, l, v, used),
{
    let n = v.dim();
    let l = Seq::new(n as nat, |r: int| Seq::new(n as nat, |c: int| Placement { tile: 0, turns: 0 }));
    assert forall|m: Layout| #[trigger] v.admits(used, m, n, col) implies !precedes(m, l, n, n, col) by {
        if precedes(m, l, n, n, col) {
            let (r, c) = choose|r: int, c: int| parts_at(m, l, n, n, col, r, c);
            assert(in_span(n, n, col, r, c));
        }
    }
    l
}

/// The first placement of a completion suits the cell it is put on.
pub proof fn lemma_admits_suits(v: PuzzleView, used: Seq<bool>, l: Layout, row: int, col: int)
    requires
        0 <= row < v.dim(),
        0 <= col < v.dim(),
        v.admits(used, l, row, col),
    ensures
        v.suits(used, row, col, l[row][col]),
{
    assert(v.legal(used, l, row, col, row, col));
}

} // verus!
