use std::cell::Cell;
use vec2d::{Vec2D, Vec2DErr};

fn grid_of(n: i32, width: usize) -> Vec2D<i32> {
    Vec2D::from_vec((0..n).collect(), width).unwrap()
}

#[test]
fn new_sizes_match_request() {
    for (w, h) in [(1usize, 1usize), (1, 7), (7, 1), (5, 4)] {
        let grid: Vec2D<i64> = Vec2D::new(w, h).unwrap();
        assert_eq!(grid.width(), w);
        assert_eq!(grid.height(), h);
        assert_eq!(grid.cells().len(), w * h);
        assert!(grid.cells().iter().all(|c| *c == 0));
    }
}

#[test]
fn zero_width_wins_over_zero_height() {
    assert!(matches!(Vec2D::<u8>::new(0, 0), Err(Vec2DErr::ZeroWidth)));
    assert!(matches!(Vec2D::<u8>::new(0, 9), Err(Vec2DErr::ZeroWidth)));
    assert!(matches!(Vec2D::<u8>::new(9, 0), Err(Vec2DErr::ZeroHeight)));
    assert!(matches!(
        Vec2D::new_with_default(0, 2, 'a'),
        Err(Vec2DErr::ZeroWidth)
    ));
    assert!(matches!(
        Vec2D::new_with_default(2, 0, 'a'),
        Err(Vec2DErr::ZeroHeight)
    ));
}

#[test]
fn from_vec_error_order() {
    assert!(matches!(
        Vec2D::<u8>::from_vec(vec![], 0),
        Err(Vec2DErr::ZeroWidth)
    ));
    assert!(matches!(
        Vec2D::<u8>::from_vec(vec![], 3),
        Err(Vec2DErr::EmptySource)
    ));
    assert!(matches!(
        Vec2D::from_vec(vec![1, 2], 0),
        Err(Vec2DErr::ZeroWidth)
    ));
}

#[test]
fn constructor_fills_in_row_major_order() {
    let counter = Cell::new(0);
    let grid = Vec2D::new_with_constructor(3, 2, || {
        counter.set(counter.get() + 1);
        counter.get()
    })
    .unwrap();
    assert_eq!(grid.cells(), &[1, 2, 3, 4, 5, 6]);
    assert!(matches!(
        Vec2D::new_with_constructor(0, 2, || 1),
        Err(Vec2DErr::ZeroWidth)
    ));
    assert!(matches!(
        Vec2D::new_with_constructor(2, 0, || 1),
        Err(Vec2DErr::ZeroHeight)
    ));
}

#[test]
fn round_trip_through_vec() {
    let grid = grid_of(12, 4);
    let copy = grid.clone();
    let cells: Vec<i32> = Vec::from(grid);
    assert_eq!(cells, (0..12).collect::<Vec<_>>());
    let back = Vec2D::from_vec(cells, 4).unwrap();
    assert_eq!(back, copy);
}

#[test]
fn try_from_pair_validates_like_from_vec() {
    let grid = Vec2D::try_from((vec![1, 2, 3, 4], 2)).unwrap();
    assert_eq!(grid.height(), 2);
    assert!(matches!(
        Vec2D::try_from((vec![1, 2, 3], 2)),
        Err(Vec2DErr::WidthMismatch(3, 2))
    ));
}

#[test]
fn index_of_and_coords_invert_each_other() {
    let grid = grid_of(12, 4);
    assert_eq!(grid.index_of(3, 1), Some(7));
    assert_eq!(grid.index_of(4, 0), None);
    assert_eq!(grid.index_of(0, 3), None);
    assert_eq!(grid.coords(7), Some((3, 1)));
    assert_eq!(grid.coords(12), None);
    for y in 0..3 {
        for x in 0..4 {
            let i = grid.index_of(x, y).unwrap();
            assert_eq!(grid.coords(i), Some((x, y)));
        }
    }
}

#[test]
fn static_coordinate_helpers() {
    assert_eq!(Vec2D::<u8>::create_index(2, 3, 5), 17);
    assert_eq!(Vec2D::<u8>::create_coords(17, 5), (2, 3));
    assert_eq!(Vec2D::<u8>::create_coords(0, 1), (0, 0));
}

#[test]
fn indexing_reads_row_major_cells() {
    let grid = grid_of(9, 3);
    assert_eq!(grid[(0, 0)], 0);
    assert_eq!(grid[(2, 1)], 5);
    assert_eq!(grid[(2, 2)], 8);
}

#[test]
fn get_row_past_end_is_none() {
    let grid = grid_of(6, 3);
    assert_eq!(grid.get_row(2), None);
    assert_eq!(grid.get_row(usize::MAX), None);
}

#[test]
fn get_row_mut_writes_one_row() {
    let mut grid = grid_of(6, 3);
    {
        let row = grid.get_row_mut(1).unwrap();
        assert_eq!(row, &[3, 4, 5]);
        row[0] = 30;
        row[2] = 50;
    }
    assert_eq!(grid.cells(), &[0, 1, 2, 30, 4, 50]);
    assert!(grid.get_row_mut(2).is_none());
}

#[test]
fn extend_rejects_partial_rows() {
    let mut grid = grid_of(6, 3);
    assert!(matches!(
        grid.extend(vec![6, 7]),
        Err(Vec2DErr::WidthMismatch(2, 3))
    ));
    assert_eq!(grid.cells(), &[0, 1, 2, 3, 4, 5]);
    grid.extend(vec![6, 7, 8, 9, 10, 11]).unwrap();
    assert_eq!(grid.height(), 4);
    grid.extend(vec![]).unwrap();
    assert_eq!(grid.height(), 4);
}

#[test]
fn extend_cloned_keeps_source() {
    let mut grid = grid_of(3, 3);
    let row = vec![7, 8, 9];
    grid.extend_cloned(&row).unwrap();
    assert_eq!(row, vec![7, 8, 9]);
    assert_eq!(grid.cells(), &[0, 1, 2, 7, 8, 9]);
    assert!(matches!(
        grid.extend_cloned(&[1]),
        Err(Vec2DErr::WidthMismatch(1, 3))
    ));
}

#[test]
fn insert_row_errors() {
    let mut grid = grid_of(6, 3);
    assert!(matches!(
        grid.insert_row(2, vec![1, 2, 3]),
        Err(Vec2DErr::OutOfBounds)
    ));
    assert!(matches!(
        grid.insert_row(0, vec![1, 2]),
        Err(Vec2DErr::WidthMismatch(2, 3))
    ));
    assert_eq!(grid.cells(), &[0, 1, 2, 3, 4, 5]);
}

#[test]
fn insert_row_cloned_at_top() {
    let mut grid = grid_of(6, 3);
    let rows = [9, 9, 9, 8, 8, 8];
    grid.insert_row_cloned(0, &rows).unwrap();
    assert_eq!(grid.cells(), &[9, 9, 9, 8, 8, 8, 0, 1, 2, 3, 4, 5]);
    assert_eq!(grid.height(), 4);
    assert!(matches!(
        grid.insert_row_cloned(4, &rows),
        Err(Vec2DErr::OutOfBounds)
    ));
}

#[test]
fn remove_and_discard_rows() {
    let mut grid = grid_of(9, 3);
    assert_eq!(grid.remove_row(1).unwrap(), vec![3, 4, 5]);
    assert_eq!(grid.cells(), &[0, 1, 2, 6, 7, 8]);
    grid.discard_row(0).unwrap();
    assert_eq!(grid.cells(), &[6, 7, 8]);
    assert!(matches!(grid.remove_row(1), Err(Vec2DErr::OutOfBounds)));
    assert!(matches!(grid.discard_row(1), Err(Vec2DErr::OutOfBounds)));
    grid.discard_row(0).unwrap();
    assert_eq!(grid.height(), 0);
    assert_eq!(grid.width(), 3);
}

#[test]
fn truncate_rows_keeps_top() {
    let mut grid = grid_of(12, 3);
    grid.truncate_rows(2).unwrap();
    assert_eq!(grid.cells(), &[0, 1, 2, 3, 4, 5]);
    assert!(matches!(grid.truncate_rows(3), Err(Vec2DErr::OutOfBounds)));
    assert_eq!(grid.height(), 2);
}

#[test]
fn truncate_cols_keeps_left() {
    let mut grid = grid_of(12, 4);
    grid.truncate_cols(2).unwrap();
    assert_eq!(grid.width(), 2);
    assert_eq!(grid.height(), 3);
    assert_eq!(grid.cells(), &[0, 1, 4, 5, 8, 9]);
    assert!(matches!(
        grid.truncate_cols(3),
        Err(Vec2DErr::WidthMismatch(3, 2))
    ));
    assert!(matches!(grid.truncate_cols(0), Err(Vec2DErr::ZeroWidth)));
    assert_eq!(grid.cells(), &[0, 1, 4, 5, 8, 9]);
}

#[test]
fn truncating_to_current_size_changes_nothing() {
    let mut grid = grid_of(12, 4);
    let before = grid.clone();
    let h = grid.height();
    let w = grid.width();
    grid.truncate_rows(h).unwrap();
    assert_eq!(grid, before);
    grid.truncate_cols(w).unwrap();
    assert_eq!(grid, before);
}

#[test]
fn iter_xy_pairs_values_with_coordinates() {
    let grid = grid_of(6, 3);
    let all = grid.iter_xy();
    assert_eq!(all.len(), 6);
    assert_eq!(all[4], ((1, 1), &4));
    assert_eq!(all[5], ((2, 1), &5));
}

#[test]
fn iter_rows_of_single_column() {
    let grid = grid_of(3, 1);
    let rows = grid.iter_rows();
    assert_eq!(rows, vec![&[0][..], &[1][..], &[2][..]]);
}

#[test]
fn neighbors_carry_values() {
    let grid = Vec2D::from_vec((10..19).collect(), 3).unwrap();
    let vn = grid.neighbors_von_neumann(2, 2);
    assert_eq!(vn, vec![((2, 1), &15), ((1, 2), &17)]);
    let moore = grid.neighbors_moore(2, 0);
    assert_eq!(moore, vec![((1, 0), &11), ((1, 1), &14), ((2, 1), &15)]);
    assert!(grid.neighbors_moore(10, 10).is_empty());
    let edge = grid.neighbors_von_neumann(3, 1);
    assert_eq!(edge, vec![((2, 1), &15)]);
}

#[test]
fn neighbors_on_single_cell_grid() {
    let grid = Vec2D::from_vec(vec![1], 1).unwrap();
    assert!(grid.neighbors_von_neumann(0, 0).is_empty());
    assert!(grid.neighbors_moore(0, 0).is_empty());
    assert!(grid.neighbors_moore(usize::MAX, usize::MAX).is_empty());
}

#[test]
fn owned_and_borrowed_iteration() {
    let grid = grid_of(4, 2);
    let borrowed: Vec<&i32> = (&grid).into_iter().collect();
    assert_eq!(borrowed, vec![&0, &1, &2, &3]);
    let slice: &[i32] = grid.as_ref();
    assert_eq!(slice, &[0, 1, 2, 3]);
    let owned: Vec<i32> = grid.into_iter().collect();
    assert_eq!(owned, vec![0, 1, 2, 3]);
}

#[test]
fn error_messages() {
    assert_eq!(Vec2DErr::EmptySource.message(), "Source vector is empty.");
    assert_eq!(
        Vec2DErr::OutOfBounds.message(),
        "Attempted to acces an index which is out of bounds."
    );
    assert_eq!(
        Vec2DErr::WidthMismatch(5, 3).message(),
        "Vector length (5) is not divisible by given width (3)."
    );
    assert_eq!(
        Vec2DErr::WidthMismatch(1024, 10).message(),
        "Vector length (1024) is not divisible by given width (10)."
    );
    assert_eq!(Vec2DErr::ZeroWidth.message(), "Width must be bigger than 0.");
    assert_eq!(Vec2DErr::ZeroHeight.message(), "Height must be bigger than 0.");
}

#[test]
fn map_in_place_sees_each_cell_once() {
    let mut grid = grid_of(6, 2);
    grid.map_in_place(|c| *c * 10 + 1);
    assert_eq!(grid.cells(), &[1, 11, 21, 31, 41, 51]);
    assert_eq!(grid.width(), 2);
}

#[test]
fn iter_xy_mut_writes_through() {
    let mut grid = grid_of(6, 3);
    for ((x, y), cell) in grid.iter_xy_mut() {
        *cell = (10 * y + x) as i32;
    }
    assert_eq!(grid.cells(), &[0, 1, 2, 10, 11, 12]);
}

#[test]
fn iter_rows_mut_writes_through() {
    let mut grid = grid_of(6, 2);
    let rows = grid.iter_rows_mut();
    assert_eq!(rows.len(), 3);
    for (y, row) in rows.into_iter().enumerate() {
        row[1] = -(y as i32);
    }
    assert_eq!(grid.cells(), &[0, 0, 2, -1, 4, -2]);
}

#[test]
fn as_mut_writes_cells_in_place() {
    let mut grid = grid_of(4, 2);
    {
        let cells: &mut [i32] = grid.as_mut();
        cells[3] = 30;
    }
    assert_eq!(grid.cells(), &[0, 1, 2, 30]);
    assert_eq!(grid.height(), 2);
}
