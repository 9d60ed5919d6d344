use autobattler::formation::{coords_box, coords_pyramid, exec_box_side, Formation};

#[test]
fn box_side_is_ceil_sqrt() {
    assert_eq!(exec_box_side(0), 1);
    assert_eq!(exec_box_side(1), 1);
    assert_eq!(exec_box_side(2), 2);
    assert_eq!(exec_box_side(4), 2);
    assert_eq!(exec_box_side(5), 3);
    assert_eq!(exec_box_side(9), 3);
    assert_eq!(exec_box_side(10), 4);
    assert_eq!(exec_box_side(16), 4);
    assert_eq!(exec_box_side(17), 5);
}

#[test]
fn box_coords_of_ten_fill_a_four_wide_grid() {
    // Ten units: side 4, so a 4-wide grid whose last row is partial.
    let coords = coords_box(10);
    let expected = vec![
        (0, 0),
        (1, 0),
        (2, 0),
        (3, 0),
        (0, 1),
        (1, 1),
        (2, 1),
        (3, 1),
        (0, 2),
        (1, 2),
    ];
    assert_eq!(coords, expected);
}

#[test]
fn box_returns_exactly_n_offsets_with_x_below_side() {
    for n in 0..60usize {
        let side = exec_box_side(n);
        let coords = coords_box(n);
        assert_eq!(coords.len(), n);
        for &(x, _) in &coords {
            assert!(0 <= x && (x as usize) < side);
        }
    }
}

#[test]
fn pyramid_coords_stack_triangularly() {
    let coords = coords_pyramid(6);
    let expected = vec![(0, 0), (0, 1), (1, 0), (0, 2), (1, 1), (2, 0)];
    assert_eq!(coords, expected);
}

#[test]
fn pyramid_returns_exactly_n_offsets() {
    for n in 0..60usize {
        assert_eq!(coords_pyramid(n).len(), n);
    }
}

#[test]
fn empty_count_yields_empty_layout() {
    assert!(coords_box(0).is_empty());
    assert!(coords_pyramid(0).is_empty());
    assert!(Formation::Box.coords(0).is_empty());
    assert!(Formation::Pyramid.coords(0).is_empty());
}

#[test]
fn formation_coords_dispatches_by_kind() {
    assert_eq!(Formation::Box.coords(10), coords_box(10));
    assert_eq!(Formation::Pyramid.coords(10), coords_pyramid(10));
}

#[test]
fn default_formation_is_box() {
    assert_eq!(Formation::default(), Formation::Box);
}
