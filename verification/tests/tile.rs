use insect_puzzle::tile::{Insect, InsectPart, Tile};

const INSECTS: [Insect; 4] = [Insect::Spider, Insect::Ladybug, Insect::Bee, Insect::Cricket];
const PARTS: [InsectPart; 2] = [InsectPart::Bottom, InsectPart::Upper];

fn every_label() -> Vec<(Insect, InsectPart)> {
    let mut labels = Vec::new();
    for insect in INSECTS {
        for part in PARTS {
            labels.push((insect, part));
        }
    }
    labels
}

#[test]
fn new_keeps_each_side() {
    let tile = Tile::new(
        (Insect::Spider, InsectPart::Bottom),
        (Insect::Bee, InsectPart::Upper),
        (Insect::Ladybug, InsectPart::Upper),
        (Insect::Cricket, InsectPart::Bottom),
    );
    assert_eq!(tile.north, (Insect::Spider, InsectPart::Bottom));
    assert_eq!(tile.east, (Insect::Bee, InsectPart::Upper));
    assert_eq!(tile.south, (Insect::Ladybug, InsectPart::Upper));
    assert_eq!(tile.west, (Insect::Cricket, InsectPart::Bottom));
}

#[test]
fn rotate_moves_each_label_to_the_next_side() {
    let mut tile = Tile::new(
        (Insect::Spider, InsectPart::Bottom),
        (Insect::Bee, InsectPart::Upper),
        (Insect::Ladybug, InsectPart::Upper),
        (Insect::Cricket, InsectPart::Bottom),
    );
    tile.rotate();
    let expected = Tile::new(
        (Insect::Cricket, InsectPart::Bottom),
        (Insect::Spider, InsectPart::Bottom),
        (Insect::Bee, InsectPart::Upper),
        (Insect::Ladybug, InsectPart::Upper),
    );
    assert_eq!(tile, expected);
}

#[test]
fn two_rotations_swap_opposite_sides() {
    let mut tile = Tile::new(
        (Insect::Spider, InsectPart::Bottom),
        (Insect::Bee, InsectPart::Upper),
        (Insect::Ladybug, InsectPart::Upper),
        (Insect::Cricket, InsectPart::Bottom),
    );
    tile.rotate();
    tile.rotate();
    let expected = Tile::new(
        (Insect::Ladybug, InsectPart::Upper),
        (Insect::Cricket, InsectPart::Bottom),
        (Insect::Spider, InsectPart::Bottom),
        (Insect::Bee, InsectPart::Upper),
    );
    assert_eq!(tile, expected);
}

#[test]
fn four_rotations_restore_every_tile() {
    let labels = every_label();
    let mut seen = 0;
    for &north in &labels {
        for &east in &labels {
            for &south in &labels {
                for &west in &labels {
                    let unturned = Tile::new(north, east, south, west);
                    let mut tile = unturned;
                    for _ in 0..4 {
                        tile.rotate();
                    }
                    assert_eq!(tile, unturned);
                    seen += 1;
                }
            }
        }
    }
    assert_eq!(seen, 4096);
}

#[test]
fn fewer_than_four_rotations_change_an_uneven_tile() {
    let unturned = Tile::new(
        (Insect::Spider, InsectPart::Bottom),
        (Insect::Bee, InsectPart::Upper),
        (Insect::Ladybug, InsectPart::Upper),
        (Insect::Cricket, InsectPart::Bottom),
    );
    let mut tile = unturned;
    for _ in 0..3 {
        tile.rotate();
        assert_ne!(tile, unturned);
    }
}
