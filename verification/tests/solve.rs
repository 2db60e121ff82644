use insect_puzzle::puzzle::{ConfigError, Puzzle};
use insect_puzzle::tile::{Insect, InsectPart, Tile};

use Insect::{Bee, Cricket, Ladybug, Spider};
use InsectPart::{Bottom, Upper};

fn nine_tiles() -> Vec<Tile> {
    vec![
        Tile::new((Spider, Bottom), (Bee, Upper), (Spider, Upper), (Cricket, Bottom)),
        Tile::new((Ladybug, Bottom), (Cricket, Bottom), (Spider, Bottom), (Bee, Bottom)),
        Tile::new((Ladybug, Upper), (Spider, Bottom), (Bee, Bottom), (Cricket, Upper)),
        Tile::new((Spider, Upper), (Ladybug, Upper), (Ladybug, Bottom), (Cricket, Upper)),
        Tile::new((Ladybug, Upper), (Cricket, Bottom), (Bee, Upper), (Spider, Upper)),
        Tile::new((Bee, Upper), (Spider, Bottom), (Ladybug, Upper), (Cricket, Upper)),
        Tile::new((Cricket, Bottom), (Ladybug, Upper), (Bee, Upper), (Bee, Bottom)),
        Tile::new((Ladybug, Bottom), (Spider, Upper), (Bee, Upper), (Cricket, Bottom)),
        Tile::new((Bee, Upper), (Spider, Upper), (Ladybug, Bottom), (Cricket, Bottom)),
    ]
}

/// The tile and the quarter turns that the first solution gives to each cell.
const NINE_SOLVED: [[(usize, usize); 3]; 3] =
    [[(0, 1), (7, 2), (5, 0)], [(6, 1), (2, 0), (8, 2)], [(3, 2), (4, 2), (1, 1)]];

fn four_tiles() -> Vec<Tile> {
    vec![
        Tile::new((Spider, Upper), (Bee, Upper), (Cricket, Upper), (Ladybug, Upper)),
        Tile::new((Ladybug, Bottom), (Spider, Bottom), (Bee, Bottom), (Cricket, Bottom)),
        Tile::new((Cricket, Bottom), (Ladybug, Bottom), (Spider, Upper), (Bee, Bottom)),
        Tile::new((Bee, Upper), (Cricket, Upper), (Ladybug, Upper), (Spider, Bottom)),
    ]
}

fn hopeless_tiles(count: usize) -> Vec<Tile> {
    vec![Tile::new((Bee, Upper), (Bee, Upper), (Bee, Upper), (Bee, Upper)); count]
}

fn blank(n: usize) -> Vec<Vec<Option<Tile>>> {
    vec![vec![None; n]; n]
}

fn matches(a: (Insect, InsectPart), b: (Insect, InsectPart)) -> bool {
    a.0 == b.0 && a.1 != b.1
}

fn turned(tile: Tile, turns: usize) -> Tile {
    let mut t = tile;
    for _ in 0..turns {
        t.rotate();
    }
    t
}

fn nine_solved_board() -> Vec<Vec<Option<Tile>>> {
    let tiles = nine_tiles();
    NINE_SOLVED.iter().map(|row| row.iter().map(|&(i, k)| Some(turned(tiles[i], k))).collect()).collect()
}

#[test]
fn nine_tiles_are_solved() {
    let mut puzzle = Puzzle::new(blank(3), nine_tiles()).unwrap();
    assert!(puzzle.is_blank());
    assert!(puzzle.solve());
    let board = puzzle.board();
    let mut internal_edges = 0;
    for r in 0..3 {
        for c in 0..3 {
            let here = board[r][c].expect("every cell is filled");
            if r + 1 < 3 {
                let below = board[r + 1][c].unwrap();
                assert!(matches(here.south, below.north));
                internal_edges += 1;
            }
            if c + 1 < 3 {
                let right = board[r][c + 1].unwrap();
                assert!(matches(here.east, right.west));
                internal_edges += 1;
            }
            assert!(puzzle.check_neighbors(r, c));
        }
    }
    assert_eq!(internal_edges, 12);
    // every tile of the inventory lies on exactly one cell, in some rotation
    let unturned = nine_tiles();
    for (i, tile) in puzzle.tiles().iter().enumerate() {
        assert!((0..4).any(|k| turned(unturned[i], k) == *tile));
        let count = board.iter().flatten().filter(|cell| **cell == Some(*tile)).count();
        assert_eq!(count, 1, "tile {i}");
    }
}

#[test]
fn nine_tiles_give_the_first_solution_in_search_order() {
    let mut puzzle = Puzzle::new(blank(3), nine_tiles()).unwrap();
    assert!(puzzle.solve());
    assert_eq!(*puzzle.board(), nine_solved_board());
    // the inventory keeps each tile as it was laid
    let unturned = nine_tiles();
    let mut expected = unturned.clone();
    for row in NINE_SOLVED {
        for (i, k) in row {
            expected[i] = turned(unturned[i], k);
        }
    }
    assert_eq!(*puzzle.tiles(), expected);
}

#[test]
fn four_tiles_give_the_first_solution_in_search_order() {
    let tiles = four_tiles();
    let mut puzzle = Puzzle::new(blank(2), tiles.clone()).unwrap();
    assert!(puzzle.solve());
    let expected = vec![
        vec![Some(tiles[0]), Some(tiles[2])],
        vec![Some(turned(tiles[1], 1)), Some(turned(tiles[3], 1))],
    ];
    assert_eq!(*puzzle.board(), expected);
    assert_eq!(*puzzle.tiles(), vec![tiles[0], turned(tiles[1], 1), tiles[2], turned(tiles[3], 1)]);
    assert_eq!(
        puzzle.board()[1][0],
        Some(Tile::new((Cricket, Bottom), (Ladybug, Bottom), (Spider, Bottom), (Bee, Bottom)))
    );
}

#[test]
fn tiles_that_cannot_meet_are_not_solved() {
    let mut puzzle = Puzzle::new(blank(2), hopeless_tiles(4)).unwrap();
    assert!(!puzzle.solve());
    assert_eq!(*puzzle.board(), blank(2));
    assert_eq!(*puzzle.tiles(), hopeless_tiles(4));
    assert!(puzzle.is_blank());
}

#[test]
fn a_failed_search_leaves_no_tile_marked() {
    let mut puzzle = Puzzle::new(blank(2), hopeless_tiles(4)).unwrap();
    let mut used = vec![false; 4];
    assert!(!puzzle._solve(0, 0, &mut used));
    assert_eq!(used, vec![false; 4]);
    assert_eq!(*puzzle.board(), blank(2));
    assert_eq!(*puzzle.tiles(), hopeless_tiles(4));
}

#[test]
fn one_tile_that_fits_nowhere_spoils_the_puzzle() {
    // three tiles of the four-tile puzzle, and one that matches nothing
    let mut tiles = four_tiles();
    tiles[3] = Tile::new((Bee, Upper), (Bee, Upper), (Bee, Upper), (Bee, Upper));
    let mut puzzle = Puzzle::new(blank(2), tiles.clone()).unwrap();
    assert!(!puzzle.solve());
    assert_eq!(*puzzle.board(), blank(2));
    assert_eq!(*puzzle.tiles(), tiles);
}

#[test]
fn a_failed_search_can_be_repeated() {
    let mut puzzle = Puzzle::new(blank(2), hopeless_tiles(4)).unwrap();
    assert!(!puzzle.solve());
    assert!(puzzle.is_blank());
    assert!(!puzzle.solve());
    assert_eq!(*puzzle.board(), blank(2));
}

#[test]
fn solving_twice_gives_the_same_layout() {
    let mut first = Puzzle::new(blank(3), nine_tiles()).unwrap();
    let mut second = Puzzle::new(blank(3), nine_tiles()).unwrap();
    assert_eq!(first.solve(), second.solve());
    assert_eq!(first.board(), second.board());
    assert_eq!(first.tiles(), second.tiles());
    let mut third = Puzzle::new(blank(2), hopeless_tiles(4)).unwrap();
    let mut fourth = Puzzle::new(blank(2), hopeless_tiles(4)).unwrap();
    assert_eq!(third.solve(), fourth.solve());
    assert_eq!(third.board(), fourth.board());
}

#[test]
fn the_order_of_the_inventory_decides_the_layout() {
    let mut tiles = four_tiles();
    tiles.reverse();
    let mut puzzle = Puzzle::new(blank(2), tiles.clone()).unwrap();
    assert!(puzzle.solve());
    let mut other = Puzzle::new(blank(2), four_tiles()).unwrap();
    assert!(other.solve());
    assert_ne!(puzzle.board(), other.board());
    // the first cell takes the lowest tile that leads anywhere
    assert!((0..4).any(|k| puzzle.board()[0][0] == Some(turned(tiles[0], k))));
}

#[test]
fn a_single_cell_takes_the_first_tile_as_it_lies() {
    for tile in nine_tiles() {
        let mut puzzle = Puzzle::new(blank(1), vec![tile]).unwrap();
        assert!(puzzle.solve());
        assert_eq!(*puzzle.board(), vec![vec![Some(tile)]]);
        assert_eq!(*puzzle.tiles(), vec![tile]);
        assert!(puzzle.check_neighbors(0, 0));
    }
}

#[test]
fn a_board_without_cells_is_solved() {
    let mut puzzle = Puzzle::new(Vec::new(), Vec::new()).unwrap();
    assert!(puzzle.is_blank());
    assert!(puzzle.solve());
    assert!(puzzle.board().is_empty());
    assert!(puzzle.tiles().is_empty());
}

#[test]
fn a_search_past_the_last_row_succeeds_at_once() {
    let mut puzzle = Puzzle::new(blank(2), hopeless_tiles(4)).unwrap();
    let mut used = vec![false, true, false, true];
    assert!(puzzle._solve(2, 0, &mut used));
    assert_eq!(used, vec![false, true, false, true]);
    assert_eq!(*puzzle.board(), blank(2));
    assert_eq!(*puzzle.tiles(), hopeless_tiles(4));
}

#[test]
fn a_search_from_the_middle_completes_the_board() {
    let tiles = nine_tiles();
    let mut board = blank(3);
    board[0][0] = Some(turned(tiles[0], 1));
    let mut puzzle = Puzzle::new(board, tiles.clone()).unwrap();
    assert!(!puzzle.is_blank());
    let mut used = vec![false; 9];
    used[0] = true;
    assert!(puzzle._solve(0, 1, &mut used));
    assert_eq!(*puzzle.board(), nine_solved_board());
    assert_eq!(used, vec![true; 9]);
    // the tile that was already down is not touched in the inventory
    assert_eq!(puzzle.tiles()[0], tiles[0]);
    assert_eq!(puzzle.tiles()[7], turned(tiles[7], 2));
}

#[test]
fn a_search_from_the_middle_gives_up_behind_a_bad_start() {
    let tiles = nine_tiles();
    let mut board = blank(3);
    // the first tile as it lies leads nowhere
    board[0][0] = Some(tiles[0]);
    let mut puzzle = Puzzle::new(board.clone(), tiles.clone()).unwrap();
    let mut used = vec![false; 9];
    used[0] = true;
    assert!(!puzzle._solve(0, 1, &mut used));
    assert_eq!(*puzzle.board(), board);
    assert_eq!(*puzzle.tiles(), tiles);
    let mut marks = vec![false; 9];
    marks[0] = true;
    assert_eq!(used, marks);
}

#[test]
fn a_search_skips_marked_tiles() {
    // with the first tile marked, the last row cannot be filled
    let mut puzzle = Puzzle::new(blank(1), vec![nine_tiles()[0]]).unwrap();
    let mut used = vec![true];
    assert!(!puzzle._solve(0, 0, &mut used));
    assert_eq!(used, vec![true]);
    assert_eq!(*puzzle.board(), blank(1));
}

#[test]
fn a_row_of_the_wrong_length_is_rejected() {
    let mut board = blank(3);
    board[1].pop();
    assert_eq!(Puzzle::new(board, nine_tiles()).err(), Some(ConfigError::BoardNotSquare));
    let mut board = blank(3);
    board.pop();
    assert_eq!(Puzzle::new(board, nine_tiles()).err(), Some(ConfigError::BoardNotSquare));
    assert_eq!(Puzzle::new(vec![Vec::new()], Vec::new()).err(), Some(ConfigError::BoardNotSquare));
}

#[test]
fn wrong_inventory_size_is_rejected() {
    let mut tiles = nine_tiles();
    tiles.pop();
    assert_eq!(Puzzle::new(blank(3), tiles).err(), Some(ConfigError::InventorySize));
    assert_eq!(Puzzle::new(blank(2), hopeless_tiles(3)).err(), Some(ConfigError::InventorySize));
    assert_eq!(Puzzle::new(blank(2), hopeless_tiles(5)).err(), Some(ConfigError::InventorySize));
    assert_eq!(Puzzle::new(blank(1), Vec::new()).err(), Some(ConfigError::InventorySize));
    assert_eq!(Puzzle::new(Vec::new(), hopeless_tiles(1)).err(), Some(ConfigError::InventorySize));
}

#[test]
fn the_shape_is_checked_before_the_inventory() {
    let mut board = blank(2);
    board[0].push(None);
    assert_eq!(Puzzle::new(board, hopeless_tiles(3)).err(), Some(ConfigError::BoardNotSquare));
}

#[test]
fn new_keeps_board_and_tiles() {
    let tiles = four_tiles();
    let mut board = blank(2);
    board[1][0] = Some(tiles[2]);
    let puzzle = Puzzle::new(board.clone(), tiles.clone()).unwrap();
    assert_eq!(*puzzle.board(), board);
    assert_eq!(*puzzle.tiles(), tiles);
    assert!(!puzzle.is_blank());
}
