use even_spaced_curves::curve::{collect_seedpoints, isqrt, Curve, SeedPointsQueue};
use even_spaced_curves::density::{calc_density_dim, empty_cell, DensityGrid, InsertOutcome};
use even_spaced_curves::flow_field::FlowField;
use even_spaced_curves::geometry::{ConfigError, Point, UNIT};
use even_spaced_curves::placer::{draw_curve, even_spaced_curves};

fn u(v: f64) -> i64 {
    (v * UNIT as f64).round() as i64
}

fn uniform_field(width: u32, height: u32, dir: Point) -> FlowField {
    let dirs = vec![dir; (width * height) as usize];
    FlowField::new(width, height, &dirs).unwrap()
}

fn swirl_field(width: u32, height: u32) -> FlowField {
    let mut dirs = Vec::new();
    for row in 0..height {
        for col in 0..width {
            let a = (col as f64 * 0.3 + row as f64 * 0.2).sin() * 3.0;
            dirs.push(Point { x: u(a.cos()), y: u(a.sin()) });
        }
    }
    FlowField::new(width, height, &dirs).unwrap()
}

fn dist(p: Point, q: Point) -> f64 {
    let dx = (p.x - q.x) as f64;
    let dy = (p.y - q.y) as f64;
    (dx * dx + dy * dy).sqrt()
}

#[test]
fn density_scenario_two_points() {
    let w = calc_density_dim(10 * UNIT, u(2.0));
    assert_eq!(w, 5);
    let mut g = DensityGrid::new(u(2.0), w as u32, w as u32, 4).unwrap();
    assert_eq!(g.insert_coord(u(1.0), u(1.0)), InsertOutcome::Inserted);
    assert_eq!(g.insert_coord(u(1.5), u(1.5)), InsertOutcome::Inserted);
    assert!(!g.is_valid_next_step(u(1.6), u(1.6)));
    assert!(g.is_valid_next_step(u(8.0), u(8.0)));
}

#[test]
fn density_round_trip() {
    let mut g = DensityGrid::new(u(2.0), 5, 5, 4).unwrap();
    let (x, y) = (u(4.5), u(4.5));
    assert!(g.is_valid_next_step(x, y));
    assert_eq!(g.insert_coord(x, y), InsertOutcome::Inserted);
    assert!(!g.is_valid_next_step(x, y));
    assert!(g.is_valid_next_step(u(6.6), u(4.5)));
    assert!(g.is_valid_next_step(u(4.5), u(2.4)));
    assert!(!g.is_valid_next_step(u(6.4), u(4.5)));
}

#[test]
fn density_tolerance_edge() {
    let mut g = DensityGrid::new(u(2.0), 5, 5, 4).unwrap();
    g.insert_coord(u(5.0), u(5.0));
    // 0.99 * 2.0 = 1.98: at or below is rejected
    assert!(!g.is_valid_next_step(u(6.98), u(5.0)));
    assert!(g.is_valid_next_step(u(6.981), u(5.0)));
}

#[test]
fn density_neighbourhood_clamped_at_edges() {
    let mut g = DensityGrid::new(u(1.0), 4, 4, 4).unwrap();
    g.insert_coord(u(0.5), u(0.5));
    g.insert_coord(u(3.5), u(3.5));
    assert!(!g.is_valid_next_step(u(0.6), u(0.7)));
    assert!(!g.is_valid_next_step(u(3.9), u(3.9)));
    assert!(g.is_valid_next_step(u(2.0), u(2.0)));
}

#[test]
fn density_off_boundaries() {
    let mut g = DensityGrid::new(u(2.0), 5, 5, 4).unwrap();
    assert!(g.off_boundaries(0, u(1.0)));
    assert!(g.off_boundaries(u(-1.0), u(1.0)));
    assert!(g.off_boundaries(u(10.0), u(1.0)));
    assert!(!g.off_boundaries(u(9.99), u(1.0)));
    assert!(!g.off_boundaries(u(0.5), u(0.5)));
    assert_eq!(g.insert_coord(u(12.0), u(1.0)), InsertOutcome::OffBoundaries);
    assert!(!g.is_valid_next_step(u(12.0), u(1.0)));
    assert_eq!(g.get_density_col(u(5.0)), 2);
    assert_eq!(g.get_density_row(u(3.9)), 1);
}

#[test]
fn density_cell_full_is_counted() {
    let mut g = DensityGrid::new(u(2.0), 5, 5, 1).unwrap();
    assert_eq!(g.insert_coord(u(1.0), u(1.0)), InsertOutcome::Inserted);
    assert_eq!(g.dropped(), 0);
    assert_eq!(g.insert_coord(u(1.2), u(1.2)), InsertOutcome::CellFull);
    assert_eq!(g.dropped(), 1);
    assert_eq!(g.insert_coord(u(5.0), u(5.0)), InsertOutcome::Inserted);
    assert_eq!(g.dropped(), 1);
}

#[test]
fn density_config_errors() {
    assert!(matches!(DensityGrid::new(u(1.0), 0, 5, 4), Err(ConfigError::ZeroSizedField)));
    assert!(matches!(DensityGrid::new(0, 5, 5, 4), Err(ConfigError::BadSeparation)));
    assert!(matches!(DensityGrid::new(-3, 5, 5, 4), Err(ConfigError::BadSeparation)));
    assert!(matches!(DensityGrid::new(u(4_000_000_000.0), 5, 5, 4), Err(ConfigError::TooLarge)));
}

#[test]
fn density_dims_round_up() {
    assert_eq!(calc_density_dim(u(10.0), u(3.0)), 4);
    assert_eq!(calc_density_dim(u(120.0), u(0.8)), 150);
    assert_eq!(calc_density_dim(0, u(0.8)), 0);
}

#[test]
fn empty_cell_is_empty() {
    assert!(empty_cell(8).is_empty());
}

#[test]
fn field_boundaries() {
    let f = uniform_field(10, 6, Point { x: UNIT, y: 0 });
    assert!(f.off_boundaries(0, u(3.0)));
    assert!(f.off_boundaries(u(10.0), u(3.0)));
    assert!(f.off_boundaries(u(-0.5), u(3.0)));
    assert!(f.off_boundaries(u(5.0), u(6.0)));
    assert!(f.off_boundaries(u(5.0), 0));
    assert!(!f.off_boundaries(u(5.0), u(3.0)));
    assert!(!f.off_boundaries(1, 1));
    assert!(!f.off_boundaries(u(9.999), u(5.999)));
}

#[test]
fn field_reads_cell_of_point() {
    let mut dirs = Vec::new();
    for row in 0..3 {
        for col in 0..4 {
            dirs.push(Point { x: col, y: row });
        }
    }
    let f = FlowField::new(4, 3, &dirs).unwrap();
    assert_eq!(f.get_angle(u(2.7), u(1.2)), Point { x: 2, y: 1 });
    assert_eq!(f.get_angle(u(0.1), u(2.9)), Point { x: 0, y: 2 });
    assert_eq!(f.get_angle(u(3.5), u(0.5)), Point { x: 3, y: 0 });
    assert_eq!(FlowField::get_flow_field_col(u(2.7)), 2);
    assert_eq!(FlowField::get_flow_field_row(u(0.99)), 0);
    assert_eq!(f.width(), 4);
    assert_eq!(f.height(), 3);
}

#[test]
fn field_config_errors() {
    let dirs = vec![Point { x: 0, y: UNIT }; 6];
    assert!(matches!(FlowField::new(0, 3, &dirs), Err(ConfigError::ZeroSizedField)));
    assert!(matches!(FlowField::new(2, 2, &dirs), Err(ConfigError::DirectionCount)));
    let mut bad = dirs.clone();
    bad[4] = Point { x: UNIT + 1, y: 0 };
    assert!(matches!(FlowField::new(2, 3, &bad), Err(ConfigError::DirectionOutOfRange)));
    assert!(FlowField::new(3, 2, &dirs).is_ok());
}

#[test]
fn curve_insert_steps() {
    let mut c = Curve::new(7, 4);
    assert_eq!(c.steps_taken(), 0);
    c.insert_step(1, 2, 0);
    c.insert_step(3, 4, 1);
    assert_eq!(c.curve_id(), 7);
    assert_eq!(c.steps_taken(), 2);
    assert_eq!(c.point(1), Point { x: 3, y: 4 });
    assert_eq!(c.direction(0), 0);
    assert_eq!(c.direction(1), 1);
}

#[test]
fn seed_queue_basics() {
    let mut q = SeedPointsQueue::new(3);
    assert!(q.is_empty());
    q.insert_coord(1, 2);
    q.insert_point(Point { x: 3, y: 4 });
    assert!(!q.is_empty());
    assert_eq!(q.len(), 2);
    assert_eq!(q.point(0), Point { x: 1, y: 2 });
    assert_eq!(q.point(1), Point { x: 3, y: 4 });
}

#[test]
fn integer_square_root() {
    assert_eq!(isqrt(0), 0);
    assert_eq!(isqrt(1), 1);
    assert_eq!(isqrt(15), 3);
    assert_eq!(isqrt(16), 4);
    assert_eq!(isqrt(1_000_000_000_000), 1_000_000);
}

#[test]
fn seeds_are_square_to_the_curve() {
    let mut c = Curve::new(0, 4);
    c.insert_step(u(5.0), u(5.0), 0);
    c.insert_step(u(6.0), u(5.0), 1);
    c.insert_step(u(6.0), u(7.0), 1);
    let q = collect_seedpoints(&c, u(0.5));
    assert_eq!(q.len(), 4);
    assert_eq!(q.point(0), Point { x: u(5.0), y: u(5.5) });
    assert_eq!(q.point(1), Point { x: u(5.0), y: u(4.5) });
    assert_eq!(q.point(2), Point { x: u(5.5), y: u(5.0) });
    assert_eq!(q.point(3), Point { x: u(6.5), y: u(5.0) });
}

#[test]
fn seeds_of_short_curves() {
    let mut c = Curve::new(0, 4);
    assert!(collect_seedpoints(&c, u(1.0)).is_empty());
    c.insert_step(u(5.0), u(5.0), 0);
    assert!(collect_seedpoints(&c, u(1.0)).is_empty());
    c.insert_step(u(5.0), u(5.0), 1);
    let q = collect_seedpoints(&c, u(1.0));
    assert_eq!(q.point(0), Point { x: u(5.0), y: u(6.0) });
    assert_eq!(q.point(1), Point { x: u(5.0), y: u(4.0) });
}

#[test]
fn seeds_on_a_diagonal() {
    let mut c = Curve::new(0, 2);
    c.insert_step(u(5.0), u(5.0), 0);
    c.insert_step(u(8.0), u(9.0), 1);
    let q = collect_seedpoints(&c, u(1.0));
    // tangent (3, 4) / 5: left is (-0.8, 0.6), right is (0.8, -0.6)
    assert_eq!(q.point(0), Point { x: u(4.2), y: u(5.6) });
    assert_eq!(q.point(1), Point { x: u(5.8), y: u(4.4) });
}

#[test]
fn trace_uniform_field() {
    let f = uniform_field(10, 10, Point { x: UNIT, y: 0 });
    let g = DensityGrid::new(u(1.0), 10, 10, 4).unwrap();
    let c = draw_curve(3, u(5.0), u(5.0), 4, u(1.0), &f, &g);
    assert_eq!(c.curve_id(), 3);
    assert_eq!(c.steps_taken(), 4);
    let xs: Vec<i64> = (0..4).map(|i| c.point(i).x).collect();
    assert_eq!(xs, vec![u(5.0), u(4.0), u(6.0), u(7.0)]);
    for i in 0..4 {
        assert_eq!(c.point(i).y, u(5.0));
    }
    let tags: Vec<u8> = (0..4).map(|i| c.direction(i)).collect();
    assert_eq!(tags, vec![0, 0, 1, 1]);
}

#[test]
fn trace_stops_at_field_edge() {
    let f = uniform_field(10, 10, Point { x: UNIT, y: 0 });
    let g = DensityGrid::new(u(1.0), 10, 10, 4).unwrap();
    let c = draw_curve(0, u(2.5), u(5.0), 20, u(1.0), &f, &g);
    let xs: Vec<i64> = (0..c.steps_taken() as usize).map(|i| c.point(i).x).collect();
    assert_eq!(xs, vec![u(2.5), u(1.5), u(0.5), u(3.5), u(4.5), u(5.5), u(6.5), u(7.5), u(8.5), u(9.5)]);
}

#[test]
fn trace_stops_at_dense_point() {
    let f = uniform_field(10, 10, Point { x: 0, y: UNIT });
    let mut g = DensityGrid::new(u(1.0), 10, 10, 4).unwrap();
    g.insert_coord(u(5.0), u(8.0));
    let c = draw_curve(0, u(5.0), u(5.0), 20, u(1.0), &f, &g);
    let ys: Vec<i64> = (0..c.steps_taken() as usize).map(|i| c.point(i).y).collect();
    assert_eq!(ys, vec![u(5.0), u(4.0), u(3.0), u(2.0), u(1.0), u(6.0), u(7.0)]);
}

#[test]
fn trace_blocked_both_ways() {
    let f = uniform_field(10, 10, Point { x: UNIT, y: 0 });
    let mut g = DensityGrid::new(u(1.0), 10, 10, 4).unwrap();
    g.insert_coord(u(4.0), u(5.0));
    g.insert_coord(u(6.0), u(5.0));
    let c = draw_curve(0, u(5.0), u(5.0), 10, u(1.0), &f, &g);
    assert_eq!(c.steps_taken(), 1);
    assert_eq!(c.point(0), Point { x: u(5.0), y: u(5.0) });
}

fn run(grid_dsep: f64, n_curves: u32) -> (Vec<Curve>, DensityGrid) {
    let f = swirl_field(30, 30);
    let d = u(grid_dsep);
    let dim = calc_density_dim(30 * UNIT, d) as u32;
    let mut g = DensityGrid::new(d, dim, dim, 64).unwrap();
    let curves = even_spaced_curves(u(15.0), u(15.0), n_curves, 30, 5, u(0.3), d, &f, &mut g);
    (curves, g)
}

#[test]
fn placement_keeps_separation_and_length() {
    let (curves, g) = run(1.0, 200);
    assert!(curves.len() > 5);
    assert!(curves.len() <= 200);
    assert_eq!(g.dropped(), 0);
    for (i, c) in curves.iter().enumerate() {
        assert_eq!(c.curve_id() as usize, i);
        if i > 0 {
            assert!(c.steps_taken() >= 5);
        }
        for k in 0..c.steps_taken() as usize {
            let p = c.point(k);
            assert!(p.x > 0 && p.x < 30 * UNIT && p.y > 0 && p.y < 30 * UNIT);
        }
    }
    for i in 0..curves.len() {
        for j in (i + 1)..curves.len() {
            for k in 0..curves[i].steps_taken() as usize {
                for l in 0..curves[j].steps_taken() as usize {
                    assert!(dist(curves[i].point(k), curves[j].point(l)) > 0.99 * UNIT as f64);
                }
            }
        }
    }
}

#[test]
fn placement_respects_budget() {
    let (curves, _) = run(1.0, 3);
    assert_eq!(curves.len(), 3);
    let (one, _) = run(1.0, 0);
    assert_eq!(one.len(), 1);
}

#[test]
fn placement_is_deterministic() {
    let (a, _) = run(1.5, 100);
    let (b, _) = run(1.5, 100);
    assert_eq!(a.len(), b.len());
    for (ca, cb) in a.iter().zip(b.iter()) {
        assert_eq!(ca.curve_id(), cb.curve_id());
        assert_eq!(ca.steps_taken(), cb.steps_taken());
        for k in 0..ca.steps_taken() as usize {
            assert_eq!(ca.point(k), cb.point(k));
            assert_eq!(ca.direction(k), cb.direction(k));
        }
    }
}
