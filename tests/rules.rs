use std::collections::HashSet;

use auto_tiler::{AdjacentDirection, AsMask, Direction, Neighbor, Requirement};

#[test]
fn test_matches_work() {
    let subject = Requirement::new(
        HashSet::from([1]),
        &vec![AdjacentDirection::North, AdjacentDirection::East],
    );
    let north_one = Neighbor::new(1, AdjacentDirection::North);
    let south_one = Neighbor::new(1, AdjacentDirection::South);
    let north_two = Neighbor::new(2, AdjacentDirection::North);
    let east_one = Neighbor::new(1, AdjacentDirection::East);

    assert_eq!(
        subject.matches(&vec![north_one.clone(), east_one.clone()]),
        true
    );
    assert_eq!(subject.matches(&vec![north_two, east_one.clone()]), false);
    assert_eq!(
        subject.matches(&vec![north_one.clone(), south_one.clone()]),
        false
    );
    assert_eq!(subject.matches(&vec![north_one, east_one, south_one]), true);
}

#[test]
fn test_no_directions() {
    let subject = Requirement::new::<AdjacentDirection>(HashSet::from([1]), &vec![]);
    let north_one = Neighbor::new(1, AdjacentDirection::North);
    let south_one = Neighbor::new(1, AdjacentDirection::South);
    let north_two = Neighbor::new(2, AdjacentDirection::North);

    assert_eq!(subject.matches(&vec![north_one]), true);
    assert_eq!(subject.matches(&vec![north_two]), true);
    assert_eq!(subject.matches(&vec![south_one]), true);
}

#[test]
fn test_not_directions() {
    let subject = Requirement::new::<AdjacentDirection>(HashSet::from([1]), &vec![])
        .not_wanted(&vec![AdjacentDirection::North, AdjacentDirection::South]);
    let north_one = Neighbor::new(1, AdjacentDirection::North);
    let south_one = Neighbor::new(1, AdjacentDirection::South);
    let north_two = Neighbor::new(2, AdjacentDirection::North);

    assert_eq!(subject.matches(&vec![north_one]), false);
    assert_eq!(subject.matches(&vec![north_two]), true);
    assert_eq!(subject.matches(&vec![south_one]), false);
}

#[test]
fn test_not_adj_computed() {
    let subject = Requirement::new(HashSet::from([1]), &[AdjacentDirection::South])
        .not_wanted_comp(&AdjacentDirection::all());
    let north_one = Neighbor::new(1, AdjacentDirection::North);
    let south_one = Neighbor::new(1, AdjacentDirection::South);
    let north_two = Neighbor::new(2, AdjacentDirection::North);

    assert_eq!(subject.matches(&[north_one, south_one.clone()]), false);
    assert_eq!(subject.matches(&[north_two, south_one.clone()]), true);
    assert_eq!(subject.matches(&[south_one]), true);
}

#[test]
fn vacuous_requirement_matches_anything() {
    let subject = Requirement::new::<Direction>(HashSet::from([7]), &[]);
    assert!(subject.matches::<Direction>(&[]));
    assert!(subject.matches(&[
        Neighbor::new(7, Direction::North),
        Neighbor::new(3, Direction::SouthWest),
    ]));
    let nothing = Requirement::new::<Direction>(HashSet::new(), &[]);
    assert!(nothing.matches(&[Neighbor::new(1, Direction::East)]));
}

#[test]
fn required_directions_are_enforced() {
    let neighbors = [Neighbor::new(9, Direction::North)];
    let both = Requirement::new_single(9, &[Direction::North, Direction::East]);
    assert!(!both.matches(&neighbors));
    let north = Requirement::new_single(9, &[Direction::North]);
    assert!(north.matches(&neighbors));
    let other_terrain = Requirement::new_single(8, &[Direction::North]);
    assert!(!other_terrain.matches(&neighbors));
}

#[test]
fn forbidden_directions_are_enforced() {
    let neighbors = [
        Neighbor::new(9, Direction::North),
        Neighbor::new(9, Direction::South),
    ];
    let forbid_both = Requirement::new_single::<Direction>(9, &[])
        .not_wanted(&[Direction::North, Direction::South]);
    assert!(!forbid_both.matches(&neighbors));
    let forbid_east = Requirement::new_single::<Direction>(9, &[]).not_wanted(&[Direction::East]);
    assert!(forbid_east.matches(&neighbors));
}

#[test]
fn complement_forbids_only_unrequired() {
    let subject = Requirement::new_single(1, &[Direction::North, Direction::South])
        .not_wanted_comp(&Direction::adjacent());
    assert!(subject.matches(&[
        Neighbor::new(1, Direction::North),
        Neighbor::new(1, Direction::South),
        Neighbor::new(1, Direction::NorthEast),
    ]));
    assert!(!subject.matches(&[
        Neighbor::new(1, Direction::North),
        Neighbor::new(1, Direction::South),
        Neighbor::new(1, Direction::West),
    ]));
    assert!(subject.matches(&[
        Neighbor::new(1, Direction::North),
        Neighbor::new(1, Direction::South),
        Neighbor::new(2, Direction::West),
    ]));
    assert_eq!(Direction::West.as_mask(), 64);
}
