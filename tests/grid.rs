use softbody::grid::{grid_cells, grid_fits, grid_layout, grid_particle_indices, grid_springs};

#[test]
fn cells_are_row_major() {
    assert_eq!(
        grid_cells(2, 3),
        vec![(0, 0), (0, 1), (0, 2), (1, 0), (1, 1), (1, 2)]
    );
}

#[test]
fn empty_grid_has_no_cells() {
    assert_eq!(grid_cells(0, 5), vec![]);
    assert_eq!(grid_cells(4, 0), vec![]);
}

#[test]
fn two_by_one_body_has_one_spring() {
    assert_eq!(grid_springs(0, 2, 1), vec![(0, 1)]);
}

#[test]
fn two_by_two_springs_right_then_down() {
    assert_eq!(
        grid_springs(10, 2, 2),
        vec![(10, 11), (10, 12), (11, 13), (12, 13)]
    );
}

#[test]
fn three_by_three_has_twelve_springs_and_no_diagonals() {
    let s = grid_springs(0, 3, 3);
    assert_eq!(s.len(), 12);
    for &(a, b) in &s {
        assert!(b == a + 1 || b == a + 3);
        assert!(b < 9);
        if b == a + 1 {
            assert_eq!(a / 3, b / 3);
        }
    }
}

#[test]
fn single_particle_has_no_springs() {
    assert_eq!(grid_springs(5, 1, 1), vec![]);
}

#[test]
fn one_row_links_only_to_the_right() {
    assert_eq!(grid_springs(0, 1, 4), vec![(0, 1), (1, 2), (2, 3)]);
}

#[test]
fn particle_indices_follow_the_store() {
    assert_eq!(grid_particle_indices(7, 2, 2), vec![7, 8, 9, 10]);
    assert_eq!(grid_particle_indices(3, 0, 4), vec![]);
}

#[test]
fn fit_test_at_the_largest_size() {
    assert!(grid_fits(0, 3, 4));
    assert!(grid_fits(usize::MAX - 12, 3, 4));
    assert!(!grid_fits(usize::MAX - 11, 3, 4));
    assert!(!grid_fits(0, usize::MAX, 2));
    assert!(grid_fits(usize::MAX, 0, usize::MAX));
}

#[test]
fn layout_with_springs_and_shape() {
    let layout = grid_layout(4, 2, 1, true, true);
    assert_eq!(layout.particles, vec![4, 5]);
    assert_eq!(layout.springs, vec![(4, 5)]);
    assert_eq!(layout.shape, Some(vec![4, 5]));
}

#[test]
fn layout_without_springs_or_shape() {
    let layout = grid_layout(0, 3, 3, false, false);
    assert_eq!(layout.particles, (0..9).collect::<Vec<usize>>());
    assert!(layout.springs.is_empty());
    assert_eq!(layout.shape, None);
}
