use std::collections::HashSet;

use auto_tiler::{build_auto_tiler, BoardLayer, Matrix, TileTerrain};

use TileTerrain::{Beach, Mountain, Plain, Road, Sea};

/// The ground layer of a map given row by row from South to North.
fn ground(rows: Vec<Vec<TileTerrain>>) -> BoardLayer<TileTerrain> {
    let height = rows.len();
    let width = rows[0].len();
    let cells: Vec<TileTerrain> = rows.into_iter().flatten().collect();
    let map = Matrix::from_vec(cells, width, height).unwrap();
    BoardLayer::build(&map, &HashSet::from([Plain, Sea, Road, Beach]), Some(Plain))
}

#[test]
fn sheet_has_every_rule_in_order() {
    let tiler = build_auto_tiler();
    let tiles = tiler.get_defined_tiles();
    assert_eq!(tiles.len(), 105);
    assert_eq!(tiles[0], (0, 15));
    assert_eq!(tiles[1], (3, 3));
    assert_eq!(tiles[30], (3, 8));
    assert_eq!(tiles[59], (3, 13));
    assert_eq!(tiles[88], (2, 25));
    assert_eq!(tiles[104], (1, 40));
}

#[test]
fn lone_and_surrounded_roads() {
    let tiler = build_auto_tiler();
    let board = ground(vec![
        vec![Plain, Plain, Plain],
        vec![Plain, Road, Plain],
        vec![Plain, Plain, Plain],
    ]);
    assert_eq!(tiler.get_tile(&board, (1, 1)), Some((3, 3)));
    assert_eq!(tiler.get_tile(&board, (0, 0)), Some((0, 15)));
    let full = ground(vec![vec![Road; 3]; 3]);
    assert_eq!(tiler.get_tile(&full, (1, 1)), Some((1, 1)));
}

#[test]
fn road_ends_follow_rotation() {
    let tiler = build_auto_tiler();
    // A road going North from the cell at (1, 0).
    let board = ground(vec![
        vec![Plain, Road, Plain],
        vec![Plain, Road, Plain],
        vec![Plain, Plain, Plain],
    ]);
    assert_eq!(tiler.get_tile(&board, (1, 0)), Some((3, 2)));
    // The same end turned a quarter: the road goes East.
    let board = ground(vec![vec![Road, Road, Plain]]);
    assert_eq!(tiler.get_tile(&board, (0, 0)), Some((0, 3)));
    // Half a turn: the road goes South.
    assert_eq!(tiler.get_tile(&board, (1, 0)), Some((2, 3)));
}

#[test]
fn straight_road_and_crossing() {
    let tiler = build_auto_tiler();
    let board = ground(vec![vec![Road, Road, Road]]);
    assert_eq!(tiler.get_tile(&board, (1, 0)), Some((1, 3)));
    let cross = ground(vec![
        vec![Plain, Road, Plain],
        vec![Road, Road, Road],
        vec![Plain, Road, Plain],
    ]);
    assert_eq!(tiler.get_tile(&cross, (1, 1)), Some((10, 3)));
}

#[test]
fn sea_joins_beach_and_mountains_sit_apart() {
    let tiler = build_auto_tiler();
    let board = ground(vec![vec![Beach, Sea, Beach]; 3]);
    assert_eq!(tiler.get_tile(&board, (1, 1)), Some((1, 6)));
    let map = Matrix::from_vec(vec![Mountain, Plain, Mountain], 3, 1).unwrap();
    let peaks = BoardLayer::build(&map, &HashSet::from([Mountain]), None);
    assert_eq!(tiler.get_tile(&peaks, (0, 0)), Some((2, 25)));
    assert_eq!(tiler.get_tile(&peaks, (1, 0)), None);
}
