use wind_tunnel::lattice::{
    direction_at, direction_index, direction_vector, directions, opposite,
    opposite_direction_index, CardinalDirection, Q,
};

#[test]
fn direction_vectors_match_compass() {
    assert_eq!(direction_vector(CardinalDirection::Rest), (0, 0));
    assert_eq!(direction_vector(CardinalDirection::North), (0, 1));
    assert_eq!(direction_vector(CardinalDirection::NorthEast), (1, 1));
    assert_eq!(direction_vector(CardinalDirection::East), (1, 0));
    assert_eq!(direction_vector(CardinalDirection::SouthEast), (1, -1));
    assert_eq!(direction_vector(CardinalDirection::South), (0, -1));
    assert_eq!(direction_vector(CardinalDirection::SouthWest), (-1, -1));
    assert_eq!(direction_vector(CardinalDirection::West), (-1, 0));
    assert_eq!(direction_vector(CardinalDirection::NorthWest), (-1, 1));
}

#[test]
fn directions_are_in_slot_order() {
    let dirs = directions();
    assert_eq!(dirs.len(), Q);
    assert_eq!(Q, 9);
    assert_eq!(dirs[0], CardinalDirection::Rest);
    assert_eq!(dirs[1], CardinalDirection::North);
    assert_eq!(dirs[4], CardinalDirection::SouthEast);
    assert_eq!(dirs[8], CardinalDirection::NorthWest);
    for i in 0..Q {
        assert_eq!(direction_at(i), dirs[i]);
        assert_eq!(direction_index(dirs[i]), i);
    }
}

#[test]
fn opposite_slots_table() {
    let expected = [0usize, 5, 6, 7, 8, 1, 2, 3, 4];
    for i in 0..Q {
        assert_eq!(opposite_direction_index(i), expected[i]);
    }
    assert_eq!(opposite(CardinalDirection::NorthEast), CardinalDirection::SouthWest);
    assert_eq!(opposite(CardinalDirection::Rest), CardinalDirection::Rest);
}

#[test]
fn opposite_is_involution_and_reverses_vector() {
    for d in directions() {
        assert_eq!(opposite(opposite(d)), d);
        let (dx, dy) = direction_vector(d);
        let (ox, oy) = direction_vector(opposite(d));
        assert_eq!((ox, oy), (-dx, -dy));
        assert_eq!(opposite(d) == d, d == CardinalDirection::Rest);
    }
}

#[test]
fn vectors_are_distinct_units() {
    let dirs = directions();
    for a in 0..Q {
        let (dx, dy) = direction_vector(dirs[a]);
        assert!((-1..=1).contains(&dx) && (-1..=1).contains(&dy));
        for b in 0..Q {
            if a != b {
                assert_ne!(direction_vector(dirs[a]), direction_vector(dirs[b]));
            }
        }
    }
}

#[test]
fn vectors_cancel() {
    let mut sx = 0;
    let mut sy = 0;
    for d in directions() {
        let (dx, dy) = direction_vector(d);
        sx += dx;
        sy += dy;
    }
    assert_eq!((sx, sy), (0, 0));
}
