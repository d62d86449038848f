use auto_tiler::{combine, AdjacentDirection, AsMask, Direction};

#[test]
fn test_rotate() {
    assert_eq!(Direction::North.rotate_45(1), Direction::NorthEast);
    assert_eq!(Direction::West.rotate_45(4), Direction::East);
    assert_eq!(Direction::West.rotate_45(8), Direction::West);
    assert_eq!(Direction::West.rotate_45(12), Direction::East);
    assert_eq!(Direction::West.rotate_45(1), Direction::NorthWest);
}

#[test]
fn rotation_has_order_eight_and_composes() {
    for d in Direction::all() {
        assert_eq!(d.rotate_45(8), d);
        assert_eq!(d.rotate_45(0), d);
        for a in 0..20u8 {
            for b in 0..20u8 {
                assert_eq!(d.rotate_45(a).rotate_45(b), d.rotate_45((a + b) % 8));
            }
        }
    }
    assert_eq!(Direction::NorthWest.rotate_45(1), Direction::North);
    assert_eq!(Direction::South.rotate_45(255), Direction::SouthEast);
}

#[test]
fn masks_are_distinct_single_bits() {
    let all = Direction::all();
    assert_eq!(all.len(), 8);
    for (i, d) in all.iter().enumerate() {
        let m = combine(&[*d]);
        assert_eq!(m, d.as_mask());
        assert_eq!(m.count_ones(), 1);
        for e in all.iter().skip(i + 1) {
            assert_ne!(m, e.as_mask());
        }
    }
    assert_eq!(combine(&all), 0b1111_1111);
    assert_eq!(combine(&AdjacentDirection::all()), 0b1111);
    assert_eq!(combine::<Direction>(&[]), 0);
    assert_eq!(combine(&Direction::adjacent()), 0b0101_0101);
    assert_eq!(combine(&[Direction::East, Direction::East]), 0b100);
}
