use roons::grid::{Cell, Loom, Roon, SIDE};

fn default_cell() -> Cell {
    Cell { roon: Roon::Nop, ball: false }
}

fn ball_cells(l: &Loom) -> Vec<(usize, usize)> {
    let mut out = Vec::new();
    for r in 0..SIDE {
        for c in 0..SIDE {
            if l.rows[r].cells[c].ball {
                out.push((r, c));
            }
        }
    }
    out
}

fn assert_boards_equal(a: &Loom, b: &Loom) {
    assert_eq!(a.active, b.active);
    for r in 0..SIDE {
        for c in 0..SIDE {
            assert_eq!(a.rows[r].cells[c], b.rows[r].cells[c]);
        }
    }
}

#[test]
fn index_maps_by_flooring_division() {
    let l = Loom::default();
    assert_eq!(l.index(35, 25), (3, 1));
    assert_eq!(l.index(0, 0), (0, 0));
    assert_eq!(l.index(9, 19), (0, 0));
    assert_eq!(l.index(10, 20), (1, 1));
    assert_eq!(l.index(319, 639), (31, 31));
    assert_eq!(l.index(320, 640), (32, 32));
    assert_eq!(l.index(35, 25), l.index(35, 25));
}

#[test]
fn default_board_is_all_default() {
    let l = Loom::default();
    assert!(!l.active);
    assert_eq!(l.rows.len(), SIDE);
    for r in 0..SIDE {
        assert_eq!(l.rows[r].cells.len(), SIDE);
        for c in 0..SIDE {
            assert_eq!(l.rows[r].cells[c], default_cell());
        }
    }
}

#[test]
fn toggle_places_and_clears_single_ball() {
    let mut l = Loom::default();
    assert_eq!(l.toggle_ball(35, 25), Ok(()));
    assert!(l.rows[1].cells[3].ball);
    assert_eq!(l.rows[1].cells[3].roon, Roon::Nop);
    for r in 0..SIDE {
        for c in 0..SIDE {
            if (r, c) != (1, 3) {
                assert_eq!(l.rows[r].cells[c], default_cell());
            }
        }
    }
    assert_eq!(l.toggle_ball(35, 25), Ok(()));
    assert_boards_equal(&l, &Loom::default());
}

#[test]
fn toggle_clears_without_touching_neighbours() {
    let mut l = Loom::default();
    assert_eq!(l.toggle_ball(50, 40), Ok(()));
    l.rows[2].cells[4].roon = Roon::Left;
    l.rows[2].cells[6].roon = Roon::Right;
    assert_eq!(l.toggle_ball(50, 40), Ok(()));
    assert_eq!(ball_cells(&l), Vec::<(usize, usize)>::new());
    assert_eq!(l.rows[2].cells[4].roon, Roon::Left);
    assert_eq!(l.rows[2].cells[5], default_cell());
    assert_eq!(l.rows[2].cells[6].roon, Roon::Right);
}

#[test]
fn toggle_clears_via_right_half_of_ball() {
    let mut l = Loom::default();
    assert_eq!(l.toggle_ball(50, 0), Ok(()));
    assert!(l.rows[0].cells[5].ball);
    assert_eq!(l.toggle_ball(60, 0), Ok(()));
    assert_boards_equal(&l, &Loom::default());
}

#[test]
fn toggle_rejects_right_adjacent_ball() {
    let mut l = Loom::default();
    assert_eq!(l.toggle_ball(50, 0), Ok(()));
    assert_eq!(l.toggle_ball(40, 0), Err(()));
    assert_eq!(ball_cells(&l), vec![(0, 5)]);
    for r in 0..SIDE {
        for c in 0..SIDE {
            if (r, c) != (0, 5) {
                assert_eq!(l.rows[r].cells[c], default_cell());
            }
        }
    }
}

#[test]
fn toggle_out_of_bounds_is_a_noop() {
    let mut l = Loom::default();
    assert_eq!(l.toggle_ball(0, 640), Ok(()));
    assert_eq!(l.toggle_ball(320, 0), Ok(()));
    assert_eq!(l.toggle_ball(5000, 9999), Ok(()));
    assert_boards_equal(&l, &Loom::default());
}

#[test]
fn insert_rejects_any_ball_in_window() {
    let mut l = Loom::default();
    l.insert_ball(50, 0);
    assert_eq!(ball_cells(&l), vec![(0, 5)]);
    l.insert_ball(60, 0);
    assert_eq!(ball_cells(&l), vec![(0, 5)]);
    l.insert_ball(40, 0);
    assert_eq!(ball_cells(&l), vec![(0, 5)]);
    l.insert_ball(50, 0);
    assert_eq!(ball_cells(&l), vec![(0, 5)]);
    for r in 0..SIDE {
        for c in 0..SIDE {
            if (r, c) != (0, 5) {
                assert_eq!(l.rows[r].cells[c], default_cell());
            }
        }
    }
}

#[test]
fn insert_places_when_window_is_free() {
    let mut l = Loom::default();
    l.insert_ball(50, 0);
    l.insert_ball(70, 0);
    assert_eq!(ball_cells(&l), vec![(0, 5), (0, 7)]);
    l.insert_ball(50, 20);
    assert_eq!(ball_cells(&l), vec![(0, 5), (0, 7), (1, 5)]);
}

#[test]
fn toggle_places_in_last_column() {
    let mut l = Loom::default();
    assert_eq!(l.toggle_ball(310, 0), Ok(()));
    assert_eq!(ball_cells(&l), vec![(0, 31)]);
    assert_eq!(l.toggle_ball(300, 0), Err(()));
    assert_eq!(ball_cells(&l), vec![(0, 31)]);
    assert_eq!(l.toggle_ball(310, 0), Ok(()));
    assert_boards_equal(&l, &Loom::default());
}

#[test]
fn tick_preserves_the_board() {
    let mut l = Loom::default();
    assert_eq!(l.toggle_ball(50, 0), Ok(()));
    l.rows[2].cells[7].roon = Roon::Left;
    l.active = true;
    l.tick();
    assert!(l.active);
    assert_eq!(ball_cells(&l), vec![(0, 5)]);
    assert_eq!(l.rows[2].cells[7].roon, Roon::Left);
    for r in 0..SIDE {
        for c in 0..SIDE {
            if (r, c) != (0, 5) && (r, c) != (2, 7) {
                assert_eq!(l.rows[r].cells[c], default_cell());
            }
        }
    }
}
