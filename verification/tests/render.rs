use insect_puzzle::puzzle::Puzzle;
use insect_puzzle::tile::{Insect, InsectPart, Tile};

fn sample_tiles() -> Vec<Tile> {
    vec![
        Tile::new(
            (Insect::Spider, InsectPart::Upper),
            (Insect::Bee, InsectPart::Upper),
            (Insect::Cricket, InsectPart::Upper),
            (Insect::Ladybug, InsectPart::Upper),
        ),
        Tile::new(
            (Insect::Ladybug, InsectPart::Bottom),
            (Insect::Spider, InsectPart::Bottom),
            (Insect::Bee, InsectPart::Bottom),
            (Insect::Cricket, InsectPart::Bottom),
        ),
        Tile::new(
            (Insect::Cricket, InsectPart::Bottom),
            (Insect::Ladybug, InsectPart::Bottom),
            (Insect::Spider, InsectPart::Upper),
            (Insect::Bee, InsectPart::Bottom),
        ),
        Tile::new(
            (Insect::Bee, InsectPart::Upper),
            (Insect::Cricket, InsectPart::Upper),
            (Insect::Ladybug, InsectPart::Upper),
            (Insect::Spider, InsectPart::Bottom),
        ),
    ]
}

fn debug_text(board: &Vec<Vec<Option<Tile>>>) -> String {
    let mut text = String::new();
    for row in board {
        for cell in row {
            text.push_str(&format!("{cell:?} "));
        }
        text.push('\n');
    }
    text
}

#[test]
fn a_blank_board_renders_as_empty_marks() {
    let puzzle = Puzzle::new(vec![vec![None; 3]; 3], vec![sample_tiles()[0]; 9]).unwrap();
    assert_eq!(puzzle.render(), "None None None \nNone None None \nNone None None \n");
}

#[test]
fn a_board_without_cells_renders_as_nothing() {
    let puzzle = Puzzle::new(Vec::new(), Vec::new()).unwrap();
    assert_eq!(puzzle.render(), "");
}

#[test]
fn a_tile_renders_with_its_four_sides() {
    let tile = sample_tiles()[2];
    let puzzle = Puzzle::new(vec![vec![Some(tile)]], vec![tile]).unwrap();
    assert_eq!(
        puzzle.render(),
        "Some(Tile { north: (Cricket, Bottom), east: (Ladybug, Bottom), south: (Spider, Upper), west: (Bee, Bottom) }) \n"
    );
}

#[test]
fn cells_render_in_reading_order() {
    let tiles = sample_tiles();
    let board = vec![vec![Some(tiles[0]), None], vec![Some(tiles[3]), Some(tiles[1])]];
    let puzzle = Puzzle::new(board, tiles).unwrap();
    let expected = "Some(Tile { north: (Spider, Upper), east: (Bee, Upper), south: (Cricket, Upper), west: (Ladybug, Upper) }) None \n\
                    Some(Tile { north: (Bee, Upper), east: (Cricket, Upper), south: (Ladybug, Upper), west: (Spider, Bottom) }) \
                    Some(Tile { north: (Ladybug, Bottom), east: (Spider, Bottom), south: (Bee, Bottom), west: (Cricket, Bottom) }) \n";
    assert_eq!(puzzle.render(), expected);
}

#[test]
fn rendering_agrees_with_the_debug_form_of_each_cell() {
    let mut puzzle = Puzzle::new(vec![vec![None; 2]; 2], sample_tiles()).unwrap();
    assert_eq!(puzzle.render(), debug_text(puzzle.board()));
    assert!(puzzle.solve());
    assert_eq!(puzzle.render(), debug_text(puzzle.board()));
    assert_eq!(puzzle.render().lines().count(), 2);
    assert_eq!(puzzle.render().matches("Some(").count(), 4);
}
