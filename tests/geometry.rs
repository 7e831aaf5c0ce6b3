use chess::{Direction, Position};

#[test]
fn vectors_are_unit_steps() {
    assert_eq!(Direction::North.get_vector(), (-1, 0));
    assert_eq!(Direction::South.get_vector(), (1, 0));
    assert_eq!(Direction::East.get_vector(), (0, 1));
    assert_eq!(Direction::West.get_vector(), (0, -1));
}

#[test]
fn all_directions_in_order() {
    assert_eq!(
        Direction::all(),
        vec![Direction::North, Direction::East, Direction::South, Direction::West]
    );
}

#[test]
fn position_new_keeps_coordinates() {
    let p = Position::new(3, 4, 8);
    assert_eq!(p.row, 3);
    assert_eq!(p.col, 4);
}

#[test]
fn line_north_is_nearest_first() {
    let p = Position::new(2, 3, 8);
    assert_eq!(
        p.line(Direction::North, 8),
        vec![Position::new(1, 3, 8), Position::new(0, 3, 8)]
    );
}

#[test]
fn line_west_is_nearest_first() {
    let p = Position::new(2, 3, 8);
    assert_eq!(
        p.line(Direction::West, 8),
        vec![Position::new(2, 2, 8), Position::new(2, 1, 8), Position::new(2, 0, 8)]
    );
}

#[test]
fn line_east_and_south_ascend() {
    let p = Position::new(5, 5, 8);
    assert_eq!(
        p.line(Direction::East, 8),
        vec![Position::new(5, 6, 8), Position::new(5, 7, 8)]
    );
    assert_eq!(
        p.line(Direction::South, 8),
        vec![Position::new(6, 5, 8), Position::new(7, 5, 8)]
    );
}

#[test]
fn line_from_edge_is_empty() {
    let corner = Position::new(0, 0, 8);
    assert!(corner.line(Direction::North, 8).is_empty());
    assert!(corner.line(Direction::West, 8).is_empty());
    let far = Position::new(7, 7, 8);
    assert!(far.line(Direction::South, 8).is_empty());
    assert!(far.line(Direction::East, 8).is_empty());
}

#[test]
fn line_shape_on_every_cell() {
    let size: u32 = 6;
    for row in 0..size {
        for col in 0..size {
            let p = Position::new(row, col, size);
            for d in Direction::all() {
                let line = p.line(d, size);
                let expected_len = match d {
                    Direction::North => row,
                    Direction::West => col,
                    Direction::South => size - 1 - row,
                    Direction::East => size - 1 - col,
                };
                assert_eq!(line.len() as u32, expected_len);
                let (dr, dc) = d.get_vector();
                for (i, q) in line.iter().enumerate() {
                    assert_ne!(*q, p);
                    let k = i as i64 + 1;
                    assert_eq!(q.row as i64, row as i64 + k * dr as i64);
                    assert_eq!(q.col as i64, col as i64 + k * dc as i64);
                }
            }
        }
    }
}

#[test]
fn unique_positions_are_distinct_cells() {
    for _ in 0..20 {
        let ps = Position::generate_unique_positions(10, 5);
        assert_eq!(ps.len(), 10);
        for (i, p) in ps.iter().enumerate() {
            assert!(p.row < 5 && p.col < 5);
            for q in &ps[i + 1..] {
                assert_ne!(p, q);
            }
        }
    }
}

#[test]
fn asking_for_more_cells_than_exist_gives_all() {
    let mut ps = Position::generate_unique_positions(20, 3);
    assert_eq!(ps.len(), 9);
    ps.sort_by_key(|p| (p.row, p.col));
    let all: Vec<Position> = (0..3).flat_map(|r| (0..3).map(move |c| Position::new(r, c, 3))).collect();
    assert_eq!(ps, all);
}
