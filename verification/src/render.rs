//! The board as text: one line for each row, each cell followed by a blank.

use vstd::prelude::*;
use vstd::string::StringExecFns;
use crate::puzzle::{grid_of, Puzzle};
use crate::tile::{Insect, InsectPart, Tile};

verus! {

/// The name of an insect.
pub open spec fn insect_text(insect: Insect) -> Seq<char> {
    match insect {
        Insect::Spider => "Spider"@,
        Insect::Ladybug => "Ladybug"@,
        Insect::Bee => "Bee"@,
        Insect::Cricket => "Cricket"@,
    }
}

/// The name of a half.
pub open spec fn part_text(part: InsectPart) -> Seq<char> {
    match part {
        InsectPart::Bottom => "Bottom"@,
        InsectPart::Upper => "Upper"@,
    }
}

/// A side's label: insect and half, in parentheses.
pub open spec fn side_text(side: (Insect, InsectPart)) -> Seq<char> {
    "("@ + insect_text(side.0) + ", "@ + part_text(side.1) + ")"@
}

/// A tile: its four sides by name, from north clockwise.
pub open spec fn tile_text(tile: Tile) -> Seq<char> {
    "Tile { north: "@ + side_text(tile.north) + ", east: "@ + side_text(tile.east) + ", south: "@ + side_text(
        tile.south,
    ) + ", west: "@ + side_text(tile.west) + " }"@
}

/// A cell: its tile, or the mark of an empty cell.
pub open spec fn cell_text(cell: Option<Tile>) -> Seq<char> {
    match cell {
        None => "None"@,
        Some(tile) => "Some("@ + tile_text(tile) + ")"@,
    }
}

/// The cells of a row from left to right, each followed by a blank.
pub open spec fn row_text(cells: Seq<Option<Tile>>) -> Seq<char>
    decreases cells.len(),
{
    if cells.len() == 0 {
        Seq::empty()
    } else {
        row_text(cells.drop_last()) + cell_text(cells.last()) + " "@
    }
}

/// The rows of a board from top to bottom, each ended by a line feed.
pub open spec fn board_text(rows: Seq<Seq<Option<Tile>>>) -> Seq<char>
    decreases rows.len(),
{
    if rows.len() == 0 {
        Seq::empty()
    } else {
        board_text(rows.drop_last()) + row_text(rows.last()) + "\n"@
    }
}

fn push_side(out: &mut String, side: (Insect, InsectPart))
    ensures
        final(out)@ == old(out)@ + side_text(side),
{
    out.append("(");
    match side.0 {
        Insect::Spider => out.append("Spider"),
        Insect::Ladybug => out.append("Ladybug"),
        Insect::Bee => out.append("Bee"),
        Insect::Cricket => out.append("Cricket"),
    }
    out.append(", ");
    match side.1 {
        InsectPart::Bottom => out.append("Bottom"),
        InsectPart::Upper => out.append("Upper"),
    }
    out.append(")");
}

fn push_tile(out: &mut String, tile: Tile)
    ensures
        final(out)@ == old(out)@ + tile_text(tile),
{
    out.append("Tile { north: ");
    push_side(out, tile.north);
    out.append(", east: ");
    push_side(out, tile.east);
    out.append(", south: ");
    push_side(out, tile.south);
    out.append(", west: ");
    push_side(out, tile.west);
    out.append(" }");
}

fn push_cell(out: &mut String, cell: Option<Tile>)
    ensures
        final(out)@ == old(out)@ + cell_text(cell),
{
    match cell {
        None => {
            out.append("None");
        },
        Some(tile) => {
            out.append("Some(");
            push_tile(out, tile);
            out.append(")");
        },
    }
}

impl Puzzle {
    /// The board as text, row by row: each cell as `None` or as
    /// `Some(Tile { north: (Spider, Bottom), .. })` with all four sides,
    /// followed by a blank, and a line feed at the end of each row.
    pub fn render(&self) -> (text: String)
        ensures
            text@ == board_text(self@.board),
    {
        let rows = self.board();
        let mut text = String::new();
        let mut row: usize = 0;
        while row < rows.len()
            invariant
                row <= rows.len(),
                grid_of(rows@) == self@.board,
                text@ == board_text(self@.board.take(row as int)),
            decreases rows.len() - row,
        {
            let ghost above = text@;
            let ghost cells = self@.board[row as int];
            let mut col: usize = 0;
            while col < rows[row].len()
                invariant
                    row < rows.len(),
                    col <= rows[row as int].len(),
                    cells == rows[row as int]@,
                    text@ == above + row_text(cells.take(col as int)),
                decreases rows[row as int].len() - col,
            {
                push_cell(&mut text, rows[row][col]);
                text.append(" ");
                assert(cells.take(col + 1).drop_last() =~= cells.take(col as int));
                col += 1;
            }
            text.append("\n");
            assert(cells.take(col as int) =~= cells);
            assert(self@.board.take(row + 1).drop_last() =~= self@.board.take(row as int));
            row += 1;
        }
        assert(self@.board.take(row as int) =~= self@.board);
        text
    }
}

} // verus!
