use wind_tunnel::lattice::Q;
use wind_tunnel::streaming::stream_periodic;

fn labelled(cells: usize) -> Vec<[i32; Q]> {
    let mut grid = Vec::new();
    for d in 0..cells {
        let mut c = [0i32; Q];
        for i in 0..Q {
            c[i] = (d * 10 + i + 1) as i32;
        }
        grid.push(c);
    }
    grid
}

#[test]
fn open_grid_moves_each_slot_one_cell() {
    let old = labelled(9);
    let solid = vec![false; 9];
    let new = stream_periodic(&old, &solid, 3, 3, 0);
    assert_eq!(new.len(), 9);
    // centre cell (1, 1) = index 4
    assert_eq!(new[4][0], 41); // rest stays
    assert_eq!(new[4][3], 34); // east arrives from (0, 1)
    assert_eq!(new[4][1], 12); // north arrives from (1, 0)
    assert_eq!(new[4][2], 3); // north-east arrives from (0, 0)
    assert_eq!(new[4][7], 58); // west arrives from (2, 1)
}

#[test]
fn nothing_enters_through_the_side_edges() {
    let old = labelled(9);
    let solid = vec![false; 9];
    let new = stream_periodic(&old, &solid, 3, 3, 0);
    // left column never receives eastward slots, right column never westward ones
    for y in 0..3 {
        for i in [2usize, 3, 4] {
            assert_eq!(new[y * 3][i], 0);
        }
        for i in [6usize, 7, 8] {
            assert_eq!(new[y * 3 + 2][i], 0);
        }
    }
}

#[test]
fn rows_wrap_vertically() {
    let old = labelled(9);
    let solid = vec![false; 9];
    let new = stream_periodic(&old, &solid, 3, 3, 0);
    // (1, 0) receives northward from (1, 2) = index 7
    assert_eq!(new[1][1], 72);
    // (1, 2) receives southward from (1, 0) = index 1
    assert_eq!(new[7][5], 16);
}

#[test]
fn solid_cells_bounce_back() {
    let old = labelled(9);
    let mut solid = vec![false; 9];
    solid[4] = true;
    let new = stream_periodic(&old, &solid, 3, 3, 0);
    // solid cell receives nothing
    assert_eq!(new[4], [0; Q]);
    // (0, 1): its east slot hits the wall and comes back in the west slot
    assert_eq!(new[3][7], 34);
    // (1, 0): north slot hits the wall and comes back south
    assert_eq!(new[1][5], 12);
}

#[test]
fn single_row_wraps_onto_itself() {
    let old = labelled(2);
    let solid = vec![false; 2];
    let new = stream_periodic(&old, &solid, 2, 1, 0);
    // in a one-row tunnel north and south land in the same row
    assert_eq!(new[0][1], 2);
    assert_eq!(new[0][5], 6);
    // north-east from (0, 0) lands in (1, 0)
    assert_eq!(new[1][2], 3);
}

#[test]
fn each_value_lands_at_most_once() {
    let old = labelled(12);
    let mut solid = vec![false; 12];
    solid[5] = true;
    let new = stream_periodic(&old, &solid, 4, 3, 0);
    let mut seen = std::collections::HashSet::new();
    for c in &new {
        for &v in c {
            if v != 0 {
                assert!(seen.insert(v), "value {v} arrived twice");
            }
        }
    }
}

#[test]
fn float_mass_is_kept_in_closed_rows() {
    // A one-column tunnel loses nothing sideways once only vertical slots hold fluid.
    let mut old = vec![[0.0f64; Q]; 3];
    for c in old.iter_mut() {
        c[0] = 1.0;
        c[1] = 0.5;
        c[5] = 0.25;
    }
    let solid = vec![false; 3];
    let new = stream_periodic(&old, &solid, 1, 3, 0.0);
    let before: f64 = old.iter().flat_map(|c| c.iter()).sum();
    let after: f64 = new.iter().flat_map(|c| c.iter()).sum();
    assert!((before - after).abs() < 1e-12);
}

#[test]
fn empty_grid_streams_to_empty() {
    let old: Vec<[i32; Q]> = Vec::new();
    let new = stream_periodic(&old, &[], 0, 5, 0);
    assert!(new.is_empty());
}
