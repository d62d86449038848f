use std::collections::HashSet;

use auto_tiler::{
    AsMask, AutoTiler, BoardLayer, BoardTrait, Direction, Matrix, Neighbor, Requirement, TileDefinition,
};

/// A layer holding every cell of `grid`, where `grid[y][x]` is the terrain
/// at `(x, y)` and North is the next row.
fn layer(grid: Vec<Vec<i32>>) -> BoardLayer<i32> {
    let rows = grid.len();
    let cols = grid[0].len();
    let values: Vec<i32> = grid.into_iter().flatten().collect();
    let required: HashSet<i32> = values.iter().copied().collect();
    let map = Matrix::from_vec(values, cols, rows).unwrap();
    BoardLayer::build(&map, &required, None)
}

fn get_tiler(terrain: i32) -> AutoTiler<i32, char> {
    let mut auto_tiler = AutoTiler::default();
    auto_tiler
        .add_tile(TileDefinition::new('a', terrain).change_priority(-1))
        .add_tile(
            TileDefinition::new('b', terrain)
                .add_possible_requirements(vec![Requirement::new_single(4, &vec![Direction::South])]),
        )
        .add_tile(
            TileDefinition::new('c', terrain)
                .add_possible_requirements(vec![Requirement::new_single(5, &vec![Direction::West])]),
        );
    auto_tiler
}

#[test]
fn test_a_on_all_terrains() {
    let grid = vec![
        vec![1, 1, 1],
        vec![1, 1, 1],
        vec![1, 1, 1],
    ];

    let board = layer(grid);

    let tiler = get_tiler(1);

    let mut result: Vec<((u32, u32), Option<char>)> = Vec::default();
    for y in 0..3u32 {
        for x in 0..3u32 {
            result.push(((x, y), tiler.get_tile(&board, (x, y))));
        }
    }

    println!("Result: {:?}", result);
    let count = result.iter().filter(|(_, tile)| tile.is_some()).count();
    assert_eq!(count, 9);
}

/// A tiler for terrain 5 where 'a' is the fallback, tried last.
fn scenario_tiler() -> AutoTiler<i32, char> {
    let mut auto_tiler = AutoTiler::default();
    auto_tiler
        .add_tile(TileDefinition::new('a', 5).change_priority(1))
        .add_tile(
            TileDefinition::new('b', 5)
                .add_possible_requirements(vec![Requirement::new_single(4, &[Direction::North])]),
        )
        .add_tile(
            TileDefinition::new('c', 5)
                .add_possible_requirements(vec![Requirement::new_single(3, &[Direction::West])]),
        );
    auto_tiler
}

#[test]
fn end_to_end_scenario() {
    // Rows from South to North.
    let board = layer(vec![
        vec![3, 5, 0],
        vec![2, 5, 1],
        vec![0, 4, 0],
    ]);
    let tiler = scenario_tiler();
    // The centre has 4 to its North.
    assert_eq!(tiler.get_tile(&board, (1, 1)), Some('b'));
    // The cell South of it has 3 to its West and 5, not 4, to its North.
    assert_eq!(tiler.get_tile(&board, (1, 0)), Some('c'));
    let plain = layer(vec![vec![0, 0, 0], vec![0, 5, 0], vec![0, 0, 0]]);
    assert_eq!(tiler.get_tile(&plain, (1, 1)), Some('a'));
}

#[test]
fn first_match_in_priority_order_wins() {
    let board = layer(vec![vec![0, 5, 0], vec![0, 4, 0]]);
    let mut tiler: AutoTiler<i32, char> = AutoTiler::default();
    tiler.add_tile(TileDefinition::new('u', 5));
    tiler.add_tile(
        TileDefinition::new('s', 5)
            .add_possible_requirements(vec![Requirement::new_single(4, &[Direction::North])])
            .change_priority(-1),
    );
    assert_eq!(tiler.get_defined_tiles(), vec!['s', 'u']);
    assert_eq!(tiler.get_tile(&board, (1, 0)), Some('s'));
    let lone = layer(vec![vec![5]]);
    assert_eq!(tiler.get_tile(&lone, (0, 0)), Some('u'));
}

#[test]
fn no_definition_for_terrain_gives_none() {
    let board = layer(vec![vec![7, 5]]);
    let tiler = scenario_tiler();
    assert_eq!(tiler.get_tile(&board, (0, 0)), None);
    assert_eq!(tiler.get_tile(&board, (5, 5)), None);
    let empty: AutoTiler<i32, char> = AutoTiler::default();
    assert_eq!(empty.get_tile(&board, (1, 0)), None);
    assert!(empty.get_defined_tiles().is_empty());
}

#[test]
fn or_of_and_groups() {
    let group_a = vec![
        Requirement::new_single(1, &[Direction::North]),
        Requirement::new_single(1, &[Direction::East]),
    ];
    let group_b = vec![Requirement::new_single(1, &[Direction::South])];
    let definition: TileDefinition<i32, char> = TileDefinition::new('x', 0)
        .add_possible_requirements(group_a)
        .add_possible_requirements(group_b);
    assert!(definition.matches(&vec![Neighbor::new(1, Direction::South)]));
    assert!(definition.matches(&vec![
        Neighbor::new(1, Direction::North),
        Neighbor::new(1, Direction::East),
    ]));
    assert!(!definition.matches(&vec![Neighbor::new(1, Direction::North)]));
    assert!(!definition.matches::<Direction>(&vec![]));
    let unconditional: TileDefinition<i32, char> = TileDefinition::new('y', 0);
    assert!(unconditional.matches::<Direction>(&vec![]));
}

#[test]
fn equal_priorities_keep_insertion_order() {
    let mut tiler: AutoTiler<i32, u8> = AutoTiler::default();
    tiler
        .add_tile(TileDefinition::new(1, 0).change_priority(2))
        .add_tile(TileDefinition::new(2, 0))
        .add_tile(TileDefinition::new(3, 0).change_priority(-5))
        .add_tile(TileDefinition::new(4, 0))
        .add_tile(TileDefinition::new(5, 0).change_priority(2));
    assert_eq!(tiler.get_defined_tiles(), vec![3, 2, 4, 1, 5]);
    let board = layer(vec![vec![0]]);
    assert_eq!(tiler.get_tile(&board, (0, 0)), Some(3));
}

#[test]
fn layer_reads_terrain_and_neighbours() {
    let map = Matrix::from_vec(vec![1, 2, 3, 4, 5, 6], 3, 2).unwrap();
    let board = BoardLayer::build(&map, &HashSet::from([1, 5, 6]), Some(0));
    assert_eq!(board.get(&(0, 0)), Some(&1));
    assert_eq!(board.get(&(1, 0)), Some(&0));
    assert_eq!(board.get(&(1, 1)), Some(&5));
    assert_eq!(board.get(&(3, 0)), None);
    assert_eq!(board.get(&(0, 2)), None);
    let around: Vec<(i32, Direction)> = board
        .get_neighbors(&(1, 0), &Direction::all())
        .into_iter()
        .map(|n| (n.terrain, n.direction))
        .collect();
    assert_eq!(
        around,
        vec![
            (5, Direction::North),
            (6, Direction::NorthEast),
            (0, Direction::East),
            (1, Direction::West),
            (0, Direction::NorthWest),
        ]
    );
    let sparse = BoardLayer::build(&map, &HashSet::from([2]), None);
    assert_eq!(sparse.get(&(0, 0)), None);
    assert_eq!(sparse.get_neighbors(&(0, 0), &Direction::all()).len(), 1);
}

#[test]
fn move_point_steps_and_stops_at_the_edge() {
    assert_eq!(Direction::North.move_point(&(3, 3)), Some((3, 4)));
    assert_eq!(Direction::SouthWest.move_point(&(3, 3)), Some((2, 2)));
    assert_eq!(Direction::South.move_point(&(3, 0)), None);
    assert_eq!(Direction::West.move_point(&(0, 7)), None);
    assert_eq!(Direction::NorthEast.move_point(&(u32::MAX, 1)), None);
    assert_eq!(Direction::SouthEast.move_point(&(1, 1)), Some((2, 0)));
}
