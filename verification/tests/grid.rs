use std::collections::HashSet;
use life_grid::grid::{Grid, GridError, Index, SelectionType};

#[test]
fn iterate_over_grid_with_unequal_row_len_and_column_len() {
    let width = 4;
    let height = 6;
    let grid = Grid::filled_with(0, width, height);
    assert_eq!(width, grid.get_width());
    assert_eq!(height, grid.get_height());

    let grid2 = Grid::random_filled(&vec![0, 1], 4, 6).unwrap();
    assert_eq!(width, grid2.get_width());
    assert_eq!(height, grid2.get_height());
}

#[test]
fn get_cross_selection() {
    let grid = Grid::from_rows(&vec![
        vec![0, 0, 1, 0, 0],
        vec![0, 0, 1, 0, 0],
        vec![1, 1, 1, 1, 1],
        vec![0, 0, 1, 0, 0],
        vec![0, 0, 1, 0, 0],
    ])
    .unwrap();

    // extent of 1 should just return the target index
    let selection_extent_1: HashSet<Index> = grid
        .get_selection_indexes(SelectionType::Cross(1), Index { x: 1, y: 1 })
        .unwrap()
        .into_iter()
        .collect();
    assert_eq!(HashSet::from_iter(vec![Index { x: 1, y: 1 }]), selection_extent_1);

    // extent of 2 should return a cross-shape around the target index
    let selection_extent_2: HashSet<Index> = grid
        .get_selection_indexes(SelectionType::Cross(2), Index { x: 1, y: 1 })
        .unwrap()
        .into_iter()
        .collect();
    assert_eq!(
        HashSet::from_iter(vec![
            Index { x: 0, y: 1 },
            Index { x: 1, y: 0 },
            Index { x: 1, y: 1 },
            Index { x: 1, y: 2 },
            Index { x: 2, y: 1 },
        ]),
        selection_extent_2
    );

    let selection_across_grid_bounds: HashSet<Index> = grid
        .get_selection_indexes(SelectionType::Cross(2), Index { x: 0, y: 0 })
        .unwrap()
        .into_iter()
        .collect();
    assert_eq!(
        HashSet::from_iter(vec![
            Index { x: 0, y: 0 },
            Index { x: 0, y: 1 },
            Index { x: 1, y: 0 },
        ]),
        selection_across_grid_bounds
    );

    let selection_across_grid_bounds_2: HashSet<Index> = grid
        .get_selection_indexes(SelectionType::Cross(2), Index { x: 4, y: 4 })
        .unwrap()
        .into_iter()
        .collect();
    assert_eq!(
        HashSet::from_iter(vec![
            Index { x: 4, y: 4 },
            Index { x: 4, y: 3 },
            Index { x: 3, y: 4 },
        ]),
        selection_across_grid_bounds_2
    );
}

#[test]
fn get_square_selection() {
    let grid = Grid::from_rows(&vec![
        vec![0, 0, 0, 0, 0],
        vec![0, 1, 1, 1, 0],
        vec![0, 1, 1, 1, 0],
        vec![0, 1, 1, 1, 0],
        vec![0, 0, 0, 0, 0],
    ])
    .unwrap();

    // extent of 1 should just return the target index
    let selection_extent_1: HashSet<Index> = grid
        .get_selection_indexes(SelectionType::Square(1), Index { x: 2, y: 2 })
        .unwrap()
        .into_iter()
        .collect();
    assert_eq!(HashSet::from_iter(vec![Index { x: 2, y: 2 }]), selection_extent_1);

    // extent of 2 should return a cross-shape around the target index
    let selection_extent_2: HashSet<Index> = grid
        .get_selection_indexes(SelectionType::Square(2), Index { x: 2, y: 2 })
        .unwrap()
        .into_iter()
        .collect();
    assert_eq!(
        HashSet::from_iter(vec![
            Index { x: 1, y: 1 },
            Index { x: 1, y: 2 },
            Index { x: 1, y: 3 },
            Index { x: 2, y: 1 },
            Index { x: 2, y: 2 },
            Index { x: 2, y: 3 },
            Index { x: 3, y: 1 },
            Index { x: 3, y: 2 },
            Index { x: 3, y: 3 },
        ]),
        selection_extent_2
    );

    // extent of 2 should return a cross-shape around the target index
    let selection_extent_3: HashSet<Index> = grid
        .get_selection_indexes(SelectionType::Square(2), Index { x: 0, y: 0 })
        .unwrap()
        .into_iter()
        .collect();
    assert_eq!(
        HashSet::from_iter(vec![
            Index { x: 0, y: 0 },
            Index { x: 0, y: 1 },
            Index { x: 1, y: 0 },
            Index { x: 1, y: 1 },
        ]),
        selection_extent_3
    );
}

#[test]
fn render_draws_live_cells_as_squares() {
    let grid = Grid::from_rows(&vec![vec![1, 0], vec![0, 1]]).unwrap();
    assert_eq!(grid.render(), " \u{25a0}  \n   \u{25a0}\n");
}

#[test]
fn get_after_set_returns_the_written_value() {
    let mut grid = Grid::new(3, 3);
    assert_eq!(grid.set(1, 2, 9), Ok(()));
    assert_eq!(grid.get(1, 2), Some(9));
    assert_eq!(grid.get(2, 1), Some(0));

    assert_eq!(grid.set_index(Index { x: 0, y: 0 }, 4), Ok(()));
    assert_eq!(grid.get_index(Index { x: 0, y: 0 }), Some(4));
}

#[test]
fn get_mut_writes_through_to_the_cell() {
    let mut grid = Grid::new(2, 2);
    if let Some(cell) = grid.get_mut(0, 1) {
        *cell = 3;
    }
    assert_eq!(grid.get(0, 1), Some(3));
    assert!(grid.get_mut(2, 2).is_none());

    if let Some(cell) = grid.get_mut_index(Index { x: 1, y: 0 }) {
        *cell = 8;
    }
    assert_eq!(grid.get_index(Index { x: 1, y: 0 }), Some(8));
}

#[test]
fn out_of_bounds_access_is_reported_not_computed() {
    let mut grid = Grid::new(2, 2);
    assert_eq!(grid.get(2, 0), None);
    assert_eq!(grid.get(0, 2), None);
    assert_eq!(grid.set(0, 5, 1), Err(GridError::OutOfBounds));
    // the failed write changed nothing
    assert_eq!(grid.get(0, 0), Some(0));
    assert_eq!(grid.get(1, 1), Some(0));
}

#[test]
fn from_rows_keeps_dimensions_and_cells() {
    let rows = vec![vec![1, 2, 3], vec![4, 5, 6]];
    let grid = Grid::from_rows(&rows).unwrap();
    assert_eq!(grid.get_height(), 2);
    assert_eq!(grid.get_width(), 3);
    for x in 0usize..2 {
        for y in 0usize..3 {
            assert_eq!(grid.get(x, y), Some(rows[x][y]));
        }
    }
}

#[test]
fn from_columns_stores_the_transpose() {
    let columns = vec![vec![1, 4], vec![2, 5], vec![3, 6]];
    let grid = Grid::from_columns(&columns).unwrap();
    assert_eq!(grid.get_height(), 2);
    assert_eq!(grid.get_width(), 3);
    assert_eq!(grid.get(0, 0), Some(1));
    assert_eq!(grid.get(0, 1), Some(2));
    assert_eq!(grid.get(0, 2), Some(3));
    assert_eq!(grid.get(1, 0), Some(4));
    assert_eq!(grid.get(1, 1), Some(5));
    assert_eq!(grid.get(1, 2), Some(6));
}

#[test]
fn ragged_input_is_rejected() {
    let rows = vec![vec![1, 2, 3], vec![4, 5]];
    match Grid::from_rows(&rows) {
        Ok(_) => panic!(),
        Err(e) => assert_eq!(e, GridError::InconsistentDimensions),
    }
    let columns = vec![vec![1], vec![2, 3]];
    match Grid::from_columns(&columns) {
        Ok(_) => panic!(),
        Err(e) => assert_eq!(e, GridError::InconsistentDimensions),
    }
}

#[test]
fn random_fill_draws_only_from_the_candidates() {
    let grid = Grid::random_filled(&vec![5], 3, 2).unwrap();
    assert_eq!(grid.get_width(), 3);
    assert_eq!(grid.get_height(), 2);
    for x in 0usize..2 {
        for y in 0usize..3 {
            assert_eq!(grid.get(x, y), Some(5));
        }
    }

    let coin = Grid::random_filled(&vec![0, 1], 4, 4).unwrap();
    for x in 0usize..4 {
        for y in 0usize..4 {
            let v = coin.get(x, y).unwrap();
            assert!(v == 0 || v == 1);
        }
    }
}

#[test]
fn random_fill_with_no_candidates_is_refused() {
    match Grid::random_filled(&vec![], 2, 2) {
        Ok(_) => panic!(),
        Err(e) => assert_eq!(e, GridError::EmptyCandidateSet),
    }
}

#[test]
fn get_diagonal_cross_selection() {
    let grid = Grid::filled_with(0, 5, 5);

    let extent_1: HashSet<Index> = grid
        .get_selection_indexes(SelectionType::DiagonalCross(1), Index { x: 2, y: 2 })
        .unwrap()
        .into_iter()
        .collect();
    assert_eq!(HashSet::from_iter(vec![Index { x: 2, y: 2 }]), extent_1);

    let extent_2: HashSet<Index> = grid
        .get_selection_indexes(SelectionType::DiagonalCross(2), Index { x: 2, y: 2 })
        .unwrap()
        .into_iter()
        .collect();
    assert_eq!(
        HashSet::from_iter(vec![
            Index { x: 2, y: 2 },
            Index { x: 1, y: 1 },
            Index { x: 1, y: 3 },
            Index { x: 3, y: 1 },
            Index { x: 3, y: 3 },
        ]),
        extent_2
    );

    // at a corner, diagonal steps that leave the grid are excluded
    let corner: HashSet<Index> = grid
        .get_selection_indexes(SelectionType::DiagonalCross(2), Index { x: 0, y: 0 })
        .unwrap()
        .into_iter()
        .collect();
    assert_eq!(
        HashSet::from_iter(vec![Index { x: 0, y: 0 }, Index { x: 1, y: 1 }]),
        corner
    );
}

#[test]
fn get_circle_selection() {
    let grid = Grid::filled_with(0, 5, 5);

    let extent_2: HashSet<Index> = grid
        .get_selection_indexes(SelectionType::Circle(2), Index { x: 2, y: 2 })
        .unwrap()
        .into_iter()
        .collect();
    assert_eq!(
        HashSet::from_iter(vec![
            Index { x: 2, y: 2 },
            Index { x: 1, y: 2 },
            Index { x: 3, y: 2 },
            Index { x: 2, y: 1 },
            Index { x: 2, y: 3 },
        ]),
        extent_2
    );

    // radius 2: every cell within Euclidean distance 2, corners excluded
    let extent_3 = grid
        .get_selection_indexes(SelectionType::Circle(3), Index { x: 2, y: 2 })
        .unwrap();
    assert_eq!(extent_3.len(), 13);
    let extent_3: HashSet<Index> = extent_3.into_iter().collect();
    assert!(extent_3.contains(&Index { x: 0, y: 2 }));
    assert!(extent_3.contains(&Index { x: 1, y: 1 }));
    assert!(!extent_3.contains(&Index { x: 0, y: 0 }));
}

#[test]
fn selection_of_an_out_of_bounds_index_is_refused() {
    let grid = Grid::new(3, 3);
    assert!(grid
        .get_selection_indexes(SelectionType::Square(2), Index { x: 3, y: 0 })
        .is_none());
    assert!(grid.get_selection(SelectionType::Cross(2), Index { x: 0, y: 7 }).is_none());
}

#[test]
fn get_selection_returns_each_stored_value_once() {
    let grid = Grid::from_rows(&vec![
        vec![0, 0, 1],
        vec![0, 1, 0],
        vec![1, 0, 0],
    ])
    .unwrap();
    let mut values = grid
        .get_selection(SelectionType::Square(2), Index { x: 1, y: 1 })
        .unwrap();
    values.sort();
    assert_eq!(values, vec![0, 1]);

    let lonely = grid.get_selection(SelectionType::Square(1), Index { x: 0, y: 0 }).unwrap();
    assert_eq!(lonely, vec![0]);
}
