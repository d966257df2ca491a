use wind_tunnel::lattice::Q;
use wind_tunnel::simulation::Simulation;
use wind_tunnel::streaming::stream_periodic;

fn fluid() -> [i32; Q] {
    [1, 2, 3, 4, 5, 6, 7, 8, 9]
}

fn mask() -> Vec<bool> {
    // 4 wide, 3 tall, one solid cell at (2, 1)
    let mut m = vec![false; 12];
    m[6] = true;
    m
}

#[test]
fn new_fills_open_and_solid_cells() {
    let sim = Simulation::new(4, 3, fluid(), 0, mask());
    assert_eq!(sim.cell_at(0, 0), fluid());
    assert_eq!(sim.cell_at(2, 1), [0; Q]);
    assert_eq!(sim.cell_at(3, 2), fluid());
    assert!(sim.is_solid(2, 1));
    assert!(!sim.is_solid(1, 1));
}

#[test]
fn index_is_row_major() {
    let sim = Simulation::new(4, 3, fluid(), 0, mask());
    assert_eq!(sim.index_from_xy(0, 0), 0);
    assert_eq!(sim.index_from_xy(3, 0), 3);
    assert_eq!(sim.index_from_xy(2, 1), 6);
    assert_eq!(sim.index_from_xy(1, 2), 9);
}

#[test]
fn step_applies_inlet_and_outflow() {
    let mut sim = Simulation::new(4, 3, fluid(), 0, mask());
    let inlet = [100; Q];
    sim.step(|c: &[i32; Q]| *c, inlet);
    for y in 0..3 {
        assert_eq!(sim.cell_at(0, y), inlet);
        assert_eq!(sim.cell_at(3, y), sim.cell_at(2, y));
    }
    // the outflow copies its neighbour even where that neighbour is solid
    assert_eq!(sim.cell_at(3, 1), [0; Q]);
}

#[test]
fn step_keeps_solid_cells_empty() {
    let mut sim = Simulation::new(4, 3, fluid(), 0, mask());
    // a collision that would put fluid into every cell, solid ones included
    sim.step(|c: &[i32; Q]| {
        let mut out = *c;
        for v in out.iter_mut() {
            *v += 1;
        }
        out
    }, [100; Q]);
    assert_eq!(sim.cell_at(2, 1), [0; Q]);
    assert!(sim.is_solid(2, 1));
}

#[test]
fn step_is_collide_then_stream_then_edges() {
    let mut sim = Simulation::new(4, 3, fluid(), 0, mask());
    let collide = |c: &[i32; Q]| {
        let mut out = *c;
        for v in out.iter_mut() {
            *v *= 2;
        }
        out
    };
    let mut collided = Vec::new();
    for y in 0..3 {
        for x in 0..4 {
            collided.push(collide(&sim.cell_at(x, y)));
        }
    }
    let mut expected = stream_periodic(&collided, &mask(), 4, 3, 0);
    let inlet = [7; Q];
    for y in 0..3 {
        if !mask()[y * 4] {
            expected[y * 4] = inlet;
        }
    }
    for y in 0..3 {
        if !mask()[y * 4 + 3] {
            expected[y * 4 + 3] = expected[y * 4 + 2];
        }
    }
    sim.step(collide, inlet);
    for y in 0..3 {
        for x in 0..4 {
            assert_eq!(sim.cell_at(x, y), expected[y * 4 + x]);
        }
    }
}

#[test]
fn one_column_tunnel_only_has_an_inlet() {
    let mut sim = Simulation::new(1, 2, fluid(), 0, vec![false, false]);
    sim.step(|c: &[i32; Q]| *c, [5; Q]);
    assert_eq!(sim.cell_at(0, 0), [5; Q]);
    assert_eq!(sim.cell_at(0, 1), [5; Q]);
}

#[test]
fn two_column_outflow_copies_the_inlet() {
    let mut sim = Simulation::new(2, 1, fluid(), 0, vec![false, false]);
    sim.step(|c: &[i32; Q]| *c, [5; Q]);
    assert_eq!(sim.cell_at(0, 0), [5; Q]);
    assert_eq!(sim.cell_at(1, 0), [5; Q]);
}
